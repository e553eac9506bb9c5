//! The shape of a parsed program.
use crate::text::views;
use crate::value::dotted;
use vstd::prelude::*;
use vstd::string::StringExecFns;

verus! {

/// A dotted name, one string for each segment.
pub type Identifier = Vec<String>;

/// The comparison of a condition.
#[derive(Debug, Clone, Copy, PartialEq, Eq, Structural)]
pub enum CmpOpcode {
    Eq,
    NotEq,
}

/// One condition of a rule, as written.
#[derive(Debug)]
pub enum Condition {
    /// `name == value` or `name != value`.
    Cmp(Identifier, CmpOpcode, String),
    /// `is_set name`.
    IsSet(Identifier),
    /// `message topic`.
    Message(String),
}

/// One action of a rule, as written.
#[derive(Debug)]
pub enum Action {
    /// `set name value;`
    SetVar(Identifier, String),
    /// `unset name;`
    UnsetVar(Identifier),
    /// `acknowledge topic;`
    Acknowledge(String),
    /// `exec command;`
    Exec(String),
    /// `script` followed by the script's text up to `!#`.
    Script(String),
}

/// One rule: `when (conditions) { actions }`.
#[derive(Debug)]
pub struct Match {
    pub conditions: Vec<Condition>,
    pub actions: Vec<Action>,
}

/// A program: its rules in the order in which they were written.
#[derive(Debug)]
pub struct Glop {
    pub matches: Vec<Match>,
}

/// The mathematical value of a [`Condition`].
pub enum ConditionView {
    Cmp(Seq<Seq<char>>, CmpOpcode, Seq<char>),
    IsSet(Seq<Seq<char>>),
    Message(Seq<char>),
}

/// The mathematical value of an [`Action`].
pub enum ActionView {
    SetVar(Seq<Seq<char>>, Seq<char>),
    UnsetVar(Seq<Seq<char>>),
    Acknowledge(Seq<char>),
    Exec(Seq<char>),
    Script(Seq<char>),
}

/// The mathematical value of a [`Match`].
pub struct MatchView {
    pub conditions: Seq<ConditionView>,
    pub actions: Seq<ActionView>,
}

impl View for Condition {
    type V = ConditionView;

    open spec fn view(&self) -> ConditionView {
        match self {
            Condition::Cmp(id, op, rhs) => ConditionView::Cmp(views(id@), *op, rhs@),
            Condition::IsSet(id) => ConditionView::IsSet(views(id@)),
            Condition::Message(topic) => ConditionView::Message(topic@),
        }
    }
}

impl View for Action {
    type V = ActionView;

    open spec fn view(&self) -> ActionView {
        match self {
            Action::SetVar(id, value) => ActionView::SetVar(views(id@), value@),
            Action::UnsetVar(id) => ActionView::UnsetVar(views(id@)),
            Action::Acknowledge(topic) => ActionView::Acknowledge(topic@),
            Action::Exec(command) => ActionView::Exec(command@),
            Action::Script(text) => ActionView::Script(text@),
        }
    }
}

impl View for Match {
    type V = MatchView;

    open spec fn view(&self) -> MatchView {
        MatchView { conditions: views(self.conditions@), actions: views(self.actions@) }
    }
}

impl View for Glop {
    type V = Seq<MatchView>;

    open spec fn view(&self) -> Seq<MatchView> {
        views(self.matches@)
    }
}

/// A condition as it is written.
pub open spec fn condition_text(c: ConditionView) -> Seq<char> {
    match c {
        ConditionView::Cmp(id, op, rhs) => dotted(id) + (match op {
            CmpOpcode::Eq => " == "@,
            CmpOpcode::NotEq => " != "@,
        }) + rhs,
        ConditionView::IsSet(id) => "is_set "@ + dotted(id),
        ConditionView::Message(topic) => "message "@ + topic,
    }
}

/// Conditions as they are written: with a comma and a blank between
/// neighbours.
pub open spec fn conditions_text(cs: Seq<ConditionView>) -> Seq<char>
    decreases cs.len(),
{
    if cs.len() == 0 {
        Seq::empty()
    } else if cs.len() == 1 {
        condition_text(cs[0])
    } else {
        conditions_text(cs.drop_last()) + ", "@ + condition_text(cs.last())
    }
}

/// An action as it is written.
pub open spec fn action_text(a: ActionView) -> Seq<char> {
    match a {
        ActionView::SetVar(id, value) => "set "@ + dotted(id) + " "@ + value + ";"@,
        ActionView::UnsetVar(id) => "unset "@ + dotted(id) + ";"@,
        ActionView::Acknowledge(topic) => "acknowledge "@ + topic + ";"@,
        ActionView::Exec(command) => "exec "@ + command + ";"@,
        ActionView::Script(text) => "script "@ + text + "!#"@,
    }
}

/// Actions as they are written: each on a line of its own, after four
/// blanks.
pub open spec fn actions_text(acts: Seq<ActionView>) -> Seq<char>
    decreases acts.len(),
{
    if acts.len() == 0 {
        Seq::empty()
    } else {
        actions_text(acts.drop_last()) + "    "@ + action_text(acts.last()) + "\n"@
    }
}

/// A rule as it is written, with an empty line after it.
pub open spec fn match_text(m: MatchView) -> Seq<char> {
    "when ("@ + conditions_text(m.conditions) + ") {\n"@ + actions_text(m.actions) + "}\n\n"@
}

/// A program as it is written: its rules one after the other.
pub open spec fn glop_text(matches: Seq<MatchView>) -> Seq<char>
    decreases matches.len(),
{
    if matches.len() == 0 {
        Seq::empty()
    } else {
        glop_text(matches.drop_last()) + match_text(matches.last())
    }
}

fn push_dotted(out: &mut String, id: &Vec<String>)
    ensures
        final(out)@ == old(out)@ + dotted(views(id@)),
{
    let mut i: usize = 0;
    assert(views(id@).take(0) =~= Seq::<Seq<char>>::empty());
    assert(out@ =~= old(out)@ + dotted(views(id@).take(0)));
    while i < id.len()
        invariant
            i <= id@.len(),
            out@ == old(out)@ + dotted(views(id@).take(i as int)),
        decreases id.len() - i,
    {
        let ghost before = views(id@).take(i as int);
        let ghost so_far = out@;
        if i > 0 {
            out.append(".");
        }
        out.append(id[i].as_str());
        proof {
            reveal_strlit(".");
            let now = views(id@).take(i + 1);
            assert(now.drop_last() =~= before);
            assert(now.last() == id@[i as int]@);
            if i > 0 {
                assert("."@ =~= seq!['.']);
                assert(out@ =~= old(out)@ + (dotted(before) + seq!['.'] + id@[i as int]@));
            } else {
                assert(dotted(before) =~= Seq::<char>::empty());
                assert(out@ =~= old(out)@ + dotted(now));
            }
        }
        i += 1;
    }
    assert(views(id@).take(id@.len() as int) =~= views(id@));
}

impl Condition {
    /// The condition as it is written.
    pub fn to_string(&self) -> (r: String)
        ensures
            r@ == condition_text(self@),
    {
        let mut out = String::new();
        match self {
            Condition::Cmp(id, op, rhs) => {
                push_dotted(&mut out, id);
                match op {
                    CmpOpcode::Eq => out.append(" == "),
                    CmpOpcode::NotEq => out.append(" != "),
                }
                out.append(rhs.as_str());
                assert(out@ =~= condition_text(self@));
            },
            Condition::IsSet(id) => {
                out.append("is_set ");
                push_dotted(&mut out, id);
                assert(out@ =~= condition_text(self@));
            },
            Condition::Message(topic) => {
                out.append("message ");
                out.append(topic.as_str());
                assert(out@ =~= condition_text(self@));
            },
        }
        out
    }
}

impl Action {
    /// The action as it is written.
    pub fn to_string(&self) -> (r: String)
        ensures
            r@ == action_text(self@),
    {
        let mut out = String::new();
        match self {
            Action::SetVar(id, value) => {
                out.append("set ");
                push_dotted(&mut out, id);
                out.append(" ");
                out.append(value.as_str());
                out.append(";");
                assert(out@ =~= action_text(self@));
            },
            Action::UnsetVar(id) => {
                out.append("unset ");
                push_dotted(&mut out, id);
                out.append(";");
                assert(out@ =~= action_text(self@));
            },
            Action::Acknowledge(topic) => {
                out.append("acknowledge ");
                out.append(topic.as_str());
                out.append(";");
                assert(out@ =~= action_text(self@));
            },
            Action::Exec(command) => {
                out.append("exec ");
                out.append(command.as_str());
                out.append(";");
                assert(out@ =~= action_text(self@));
            },
            Action::Script(text) => {
                out.append("script ");
                out.append(text.as_str());
                out.append("!#");
                assert(out@ =~= action_text(self@));
            },
        }
        out
    }
}

impl Match {
    /// The rule as it is written.
    pub fn to_string(&self) -> (r: String)
        ensures
            r@ == match_text(self@),
    {
        let mut out = String::new();
        out.append("when (");
        let mut i: usize = 0;
        assert(views(self.conditions@).take(0) =~= Seq::<ConditionView>::empty());
        assert(out@ =~= "when ("@ + conditions_text(views(self.conditions@).take(0)));
        while i < self.conditions.len()
            invariant
                i <= self.conditions@.len(),
                out@ == "when ("@ + conditions_text(views(self.conditions@).take(i as int)),
            decreases self.conditions.len() - i,
        {
            let ghost before = views(self.conditions@).take(i as int);
            if i > 0 {
                out.append(", ");
            }
            let text = self.conditions[i].to_string();
            out.append(text.as_str());
            proof {
                let now = views(self.conditions@).take(i + 1);
                assert(now.drop_last() =~= before);
                assert(now.last() == self.conditions@[i as int]@);
                if i > 0 {
                    assert(out@ =~= "when ("@ + (conditions_text(before) + ", "@ + text@));
                } else {
                    assert(conditions_text(before) =~= Seq::<char>::empty());
                    assert(out@ =~= "when ("@ + conditions_text(now));
                }
            }
            i += 1;
        }
        assert(views(self.conditions@).take(self.conditions@.len() as int) =~= views(
            self.conditions@,
        ));
        out.append(") {\n");
        let ghost head = out@;
        let mut k: usize = 0;
        assert(views(self.actions@).take(0) =~= Seq::<ActionView>::empty());
        assert(out@ =~= head + actions_text(views(self.actions@).take(0)));
        while k < self.actions.len()
            invariant
                k <= self.actions@.len(),
                out@ == head + actions_text(views(self.actions@).take(k as int)),
            decreases self.actions.len() - k,
        {
            let ghost before = views(self.actions@).take(k as int);
            out.append("    ");
            let text = self.actions[k].to_string();
            out.append(text.as_str());
            out.append("\n");
            proof {
                let now = views(self.actions@).take(k + 1);
                assert(now.drop_last() =~= before);
                assert(now.last() == self.actions@[k as int]@);
                assert(out@ =~= head + (actions_text(before) + "    "@ + text@ + "\n"@));
            }
            k += 1;
        }
        assert(views(self.actions@).take(self.actions@.len() as int) =~= views(self.actions@));
        out.append("}\n\n");
        assert(out@ =~= match_text(self@));
        out
    }
}

impl Glop {
    /// The program as it is written.
    pub fn to_string(&self) -> (r: String)
        ensures
            r@ == glop_text(self@),
    {
        let mut out = String::new();
        let mut i: usize = 0;
        assert(views(self.matches@).take(0) =~= Seq::<MatchView>::empty());
        while i < self.matches.len()
            invariant
                i <= self.matches@.len(),
                out@ == glop_text(views(self.matches@).take(i as int)),
            decreases self.matches.len() - i,
        {
            let ghost before = views(self.matches@).take(i as int);
            let text = self.matches[i].to_string();
            out.append(text.as_str());
            proof {
                let now = views(self.matches@).take(i + 1);
                assert(now.drop_last() =~= before);
                assert(now.last() == self.matches@[i as int]@);
            }
            i += 1;
        }
        assert(views(self.matches@).take(self.matches@.len() as int) =~= views(self.matches@));
        out
    }
}

} // verus!
