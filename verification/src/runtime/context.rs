//! What one attempt to match a rule works on.
use crate::value::{path_get, Identifier, Obj, ObjTerm, Term, Value};
use vstd::prelude::*;

verus! {

/// The working state of one attempt to match a rule: the messages that
/// the attempt has taken, each as an object under its topic, and a copy of
/// the variables that the rule's actions may change.
#[derive(Debug)]
pub struct Context {
    pub msgs: Obj,
    pub vars: Obj,
}

/// The mathematical value of a [`Context`].
pub struct ContextView {
    pub msgs: ObjTerm,
    pub vars: ObjTerm,
}

impl View for Context {
    type V = ContextView;

    open spec fn view(&self) -> ContextView {
        ContextView { msgs: self.msgs@, vars: self.vars@ }
    }
}

/// What a name leads to: what it finds among the variables or, where it
/// finds nothing there, what it finds among the taken messages, whose
/// topics stand for their payloads.
pub open spec fn lookup(id: Seq<Seq<char>>, vars: ObjTerm, msgs: ObjTerm) -> Option<Term> {
    match path_get(id, vars) {
        Some(v) => Some(v),
        None => path_get(id, msgs),
    }
}

impl Context {
    /// A context that has taken no message yet.
    pub fn new(vars: Obj) -> (c: Context)
        ensures
            c@ == (ContextView { msgs: ObjTerm::empty(), vars: vars@ }),
    {
        Context { msgs: Obj::new(), vars }
    }

    /// What the name `id` leads to.
    pub fn lookup(&self, id: &Identifier) -> (r: Option<&Value>)
        ensures
            match r {
                Some(v) => lookup(id@, self@.vars, self@.msgs) == Some(v@),
                None => lookup(id@, self@.vars, self@.msgs) is None,
            },
    {
        match id.get(&self.vars) {
            Some(v) => Some(v),
            None => id.get(&self.msgs),
        }
    }
}

} // verus!
