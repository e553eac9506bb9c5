//! What a running script sees of its transaction: the requests it may
//! send, and the environment it starts with.
use crate::runtime::context::{Context, ContextView};
use crate::value::{path_get, path_of, path_set, Identifier, Obj, ObjTerm, Term, Value};
use vstd::string::StringExecFns;
use vstd::prelude::*;

verus! {

/// A request of a running script.
#[derive(Debug)]
pub enum Request {
    /// Asks for the variable at the dotted name `key`.
    GetVar { key: String },
    /// Puts the string `value` at the dotted name `key`.
    SetVar { key: String, value: String },
    /// Asks for the field at the dotted name `key` of the message taken
    /// from `topic`.
    GetMsg { topic: String, key: String },
}

/// The answer to a [`Request`]. A `value` of `None` says that nothing was
/// found.
#[derive(Debug)]
pub enum Response {
    GetVar { value: Option<Value> },
    SetVar,
    GetMsg { value: Option<Value> },
}

/// The mathematical value of a [`Request`].
pub enum RequestView {
    GetVar { key: Seq<char> },
    SetVar { key: Seq<char>, value: Seq<char> },
    GetMsg { topic: Seq<char>, key: Seq<char> },
}

/// The mathematical value of a [`Response`].
pub enum ResponseView {
    GetVar { value: Option<Term> },
    SetVar,
    GetMsg { value: Option<Term> },
}

impl View for Request {
    type V = RequestView;

    open spec fn view(&self) -> RequestView {
        match self {
            Request::GetVar { key } => RequestView::GetVar { key: key@ },
            Request::SetVar { key, value } => RequestView::SetVar { key: key@, value: value@ },
            Request::GetMsg { topic, key } => RequestView::GetMsg { topic: topic@, key: key@ },
        }
    }
}

impl View for Response {
    type V = ResponseView;

    open spec fn view(&self) -> ResponseView {
        match self {
            Response::GetVar { value } => ResponseView::GetVar {
                value: match value {
                    Some(v) => Some(v@),
                    None => None,
                },
            },
            Response::SetVar => ResponseView::SetVar,
            Response::GetMsg { value } => ResponseView::GetMsg {
                value: match value {
                    Some(v) => Some(v@),
                    None => None,
                },
            },
        }
    }
}

/// An integer or a string.
pub open spec fn is_scalar(v: Term) -> bool {
    !(v is Object)
}

/// The field at the dotted name `key` of the message taken from `topic`:
/// an integer or a string, or nothing.
pub open spec fn message_field(
    msgs: Map<Seq<char>, Term>,
    topic: Seq<char>,
    key: Seq<char>,
) -> Option<Term> {
    if msgs.contains_key(topic) {
        match msgs[topic] {
            Term::Object(payload) => match path_get(path_of(key), payload) {
                Some(v) => if is_scalar(v) {
                    Some(v)
                } else {
                    None
                },
                None => None,
            },
            _ => None,
        }
    } else {
        None
    }
}

/// The answer to a request on a working state.
pub open spec fn answer(ctx: ContextView, req: RequestView) -> ResponseView {
    match req {
        RequestView::GetVar { key } => ResponseView::GetVar {
            value: path_get(path_of(key), ctx.vars),
        },
        RequestView::SetVar { key, value } => ResponseView::SetVar,
        RequestView::GetMsg { topic, key } => ResponseView::GetMsg {
            value: message_field(ctx.msgs, topic, key),
        },
    }
}

/// The working state after a request has been served: only a request to set
/// a variable changes it, and only the variables.
pub open spec fn served(ctx: ContextView, req: RequestView) -> ContextView {
    match req {
        RequestView::SetVar { key, value } => ContextView {
            vars: path_set(path_of(key), ctx.vars, Term::Str(value)),
            ..ctx
        },
        _ => ctx,
    }
}

impl Context {
    /// Serves one request of a running script on the working state.
    pub fn serve(&mut self, req: &Request) -> (resp: Response)
        ensures
            resp@ == answer(old(self)@, req@),
            final(self)@ == served(old(self)@, req@),
    {
        match req {
            Request::GetVar { key } => {
                let value = match Identifier::from_str(key.as_str()).get(&self.vars) {
                    Some(v) => Some(v.clone()),
                    None => None,
                };
                Response::GetVar { value }
            },
            Request::SetVar { key, value } => {
                Identifier::from_str(key.as_str()).set(&mut self.vars, Value::Str(value.clone()));
                Response::SetVar
            },
            Request::GetMsg { topic, key } => {
                let value = match self.msgs.get(topic.as_str()) {
                    Some(Value::Object(payload)) => {
                        match Identifier::from_str(key.as_str()).get(payload) {
                            Some(Value::Object(_)) => None,
                            Some(v) => Some(v.clone()),
                            None => None,
                        }
                    },
                    _ => None,
                };
                Response::GetMsg { value }
            },
        }
    }
}

/// The character of the decimal digit `d`.
pub open spec fn digit(d: int) -> char {
    ((48 + d) as u8) as char
}

/// The decimal digits of `n`, without leading zeros.
pub open spec fn digits(n: nat) -> Seq<char>
    decreases n,
{
    if n < 10 {
        seq![digit(n as int)]
    } else {
        digits(n / 10).push(digit((n % 10) as int))
    }
}

/// An integer written in decimal, with a minus sign where it is negative.
pub open spec fn decimal(i: int) -> Seq<char> {
    if i < 0 {
        seq!['-'] + digits((-i) as nat)
    } else {
        digits(i as nat)
    }
}

/// The text of an integer or of a string; an object has none.
pub open spec fn scalar_text(v: Term) -> Option<Seq<char>> {
    match v {
        Term::Int(i) => Some(decimal(i as int)),
        Term::Str(s) => Some(s),
        Term::Object(_) => None,
    }
}

/// The name under which the field at `path` is exported: the segments of
/// the path with two underscores between neighbours.
pub open spec fn env_name(path: Seq<Seq<char>>) -> Seq<char>
    decreases path.len(),
{
    if path.len() == 0 {
        Seq::empty()
    } else if path.len() == 1 {
        path[0]
    } else {
        path[0] + seq!['_', '_'] + env_name(path.drop_first())
    }
}

/// At the end of `path`, which is not empty, `root` holds an integer or a
/// string whose text is `text`.
pub open spec fn leaf_at(root: ObjTerm, path: Seq<Seq<char>>, text: Seq<char>) -> bool {
    path.len() >= 1 && match path_get(path, root) {
        Some(v) => scalar_text(v) == Some(text),
        None => false,
    }
}

/// The pair `e` exports a field of `root`: its name is `prefix` followed by
/// the name of a path at whose end `root` holds the text of the pair.
pub open spec fn exports_leaf(root: ObjTerm, prefix: Seq<char>, e: (Seq<char>, Seq<char>)) -> bool {
    exists|path: Seq<Seq<char>>|
        #[trigger] leaf_at(root, path, e.1) && e.0 == prefix + env_name(path)
}

/// Some pair of `entries` has the name `name`.
pub open spec fn names(entries: Seq<(Seq<char>, Seq<char>)>, name: Seq<char>) -> bool {
    exists|i: int| 0 <= i < entries.len() && (#[trigger] entries[i]).0 == name
}

/// `entries` exports the fields of `root` under `prefix`: each pair exports
/// a field, and each field that holds an integer or a string has a pair
/// with its name.
pub open spec fn exports_all(
    entries: Seq<(Seq<char>, Seq<char>)>,
    root: ObjTerm,
    prefix: Seq<char>,
) -> bool {
    &&& forall|i: int| 0 <= i < entries.len() ==> exports_leaf(root, prefix, #[trigger] entries[i])
    &&& forall|path: Seq<Seq<char>>, text: Seq<char>| #[trigger]
        leaf_at(root, path, text) ==> names(entries, prefix + env_name(path))
}

/// The pairs of views of a list of pairs of strings.
pub open spec fn pairs(v: Seq<(String, String)>) -> Seq<(Seq<char>, Seq<char>)> {
    Seq::new(v.len(), |i: int| (v[i].0@, v[i].1@))
}

/// The pair exports a variable: it has the name of a variable that holds
/// an integer or a string, and that variable's text.
pub open spec fn exports_var(vars: ObjTerm, e: (Seq<char>, Seq<char>)) -> bool {
    vars.contains_key(e.0) && scalar_text(vars[e.0]) == Some(e.1)
}

/// The pair exports a field of a taken message: its name is the topic,
/// two underscores and the name of a path at whose end the message holds
/// the pair's text.
pub open spec fn exports_field(msgs: ObjTerm, e: (Seq<char>, Seq<char>)) -> bool {
    exists|topic: Seq<char>|
        msgs.contains_key(topic) && (#[trigger] msgs[topic]) is Object && exports_leaf(
            msgs[topic]->Object_0,
            topic + seq!['_', '_'],
            e,
        )
}

/// The environment of a script for a working state: each pair exports a
/// variable or a field of a taken message; each variable that holds an
/// integer or a string has a pair with its name, and so has each such
/// field of each taken message.
pub open spec fn is_env_of(entries: Seq<(Seq<char>, Seq<char>)>, ctx: ContextView) -> bool {
    &&& forall|i: int|
        0 <= i < entries.len() ==> exports_var(ctx.vars, #[trigger] entries[i]) || exports_field(
            ctx.msgs,
            entries[i],
        )
    &&& forall|name: Seq<char>|
        ctx.vars.contains_key(name) && scalar_text(#[trigger] ctx.vars[name]) is Some ==> names(
            entries,
            name,
        )
    &&& forall|topic: Seq<char>, path: Seq<Seq<char>>, text: Seq<char>|
        ctx.msgs.contains_key(topic) && ctx.msgs[topic] is Object && #[trigger] leaf_at(
            ctx.msgs[topic]->Object_0,
            path,
            text,
        ) ==> names(entries, topic + seq!['_', '_'] + env_name(path))
}

fn push_digits(s: &mut String, n: u64)
    ensures
        final(s)@ == old(s)@ + digits(n as nat),
    decreases n,
{
    if n >= 10 {
        push_digits(s, n / 10);
    }
    let d: u8 = (n % 10) as u8;
    s.push((48u8 + d) as char);
    proof {
        if n >= 10 {
            assert(s@ =~= old(s)@ + digits(n as nat));
        } else {
            assert(s@ =~= old(s)@ + digits(n as nat));
        }
    }
}

/// The integer `i` written in decimal.
pub fn int_text(i: i32) -> (s: String)
    ensures
        s@ == decimal(i as int),
{
    let mut s = String::new();
    if i < 0 {
        s.push('-');
        let n: u64 = (-(i as i64)) as u64;
        push_digits(&mut s, n);
    } else {
        push_digits(&mut s, i as u64);
        assert(s@ =~= decimal(i as int));
    }
    s
}

/// The part of `root` under the keys in `keys`.
spec fn part(root: ObjTerm, keys: Set<Seq<char>>) -> ObjTerm {
    root.restrict(keys)
}

proof fn lemma_part_get(root: ObjTerm, keys: Set<Seq<char>>, path: Seq<Seq<char>>)
    requires
        path.len() >= 1,
    ensures
        path_get(path, part(root, keys)) == if keys.contains(path[0]) {
            path_get(path, root)
        } else {
            None
        },
{
}

proof fn lemma_env_name_cons(key: Seq<char>, path: Seq<Seq<char>>)
    requires
        path.len() >= 1,
    ensures
        env_name(seq![key] + path) == key + seq!['_', '_'] + env_name(path),
{
    assert((seq![key] + path).drop_first() =~= path);
}

/// Adding the pair of a key that holds an integer or a string extends what
/// the pairs export by that key.
proof fn lemma_export_scalar(
    es: Seq<(Seq<char>, Seq<char>)>,
    root: ObjTerm,
    keys: Set<Seq<char>>,
    prefix: Seq<char>,
    key: Seq<char>,
    text: Seq<char>,
)
    requires
        exports_all(es, part(root, keys), prefix),
        root.contains_key(key),
        scalar_text(root[key]) == Some(text),
    ensures
        exports_all(es.push((prefix + key, text)), part(root, keys.insert(key)), prefix),
{
    let more = es.push((prefix + key, text));
    let wide = part(root, keys.insert(key));
    assert forall|i: int| 0 <= i < more.len() implies exports_leaf(
        wide,
        prefix,
        #[trigger] more[i],
    ) by {
        if i < es.len() {
            assert(exports_leaf(part(root, keys), prefix, es[i]));
            let path = choose|path: Seq<Seq<char>>| #[trigger]
                leaf_at(part(root, keys), path, es[i].1) && es[i].0 == prefix + env_name(path);
            lemma_part_get(root, keys, path);
            lemma_part_get(root, keys.insert(key), path);
            assert(more[i] == es[i]);
            assert(leaf_at(wide, path, more[i].1));
            assert(exports_leaf(wide, prefix, more[i]));
        } else {
            let path = seq![key];
            lemma_part_get(root, keys.insert(key), path);
            assert(more[i] == (prefix + key, text));
            assert(env_name(path) == key);
            assert(path_get(path, wide) == Some(root[key]));
            assert(leaf_at(wide, path, text));
            assert(leaf_at(wide, path, more[i].1) && more[i].0 == prefix + env_name(path));
            assert(exports_leaf(wide, prefix, more[i]));
        }
    }
    assert forall|path: Seq<Seq<char>>, t: Seq<char>| #[trigger]
        leaf_at(wide, path, t) implies names(more, prefix + env_name(path)) by {
        lemma_part_get(root, keys.insert(key), path);
        lemma_part_get(root, keys, path);
        if path[0] == key {
            assert(path.len() == 1);
            assert(more[es.len() as int].0 == prefix + env_name(path));
        } else {
            assert(leaf_at(part(root, keys), path, t));
            let i = choose|i: int| 0 <= i < es.len() && (#[trigger] es[i]).0 == prefix + env_name(path);
            assert(more[i].0 == prefix + env_name(path));
        }
    }
}

/// Adding the pairs that export an object held under a key extends what the
/// pairs export by that key.
proof fn lemma_export_object(
    es: Seq<(Seq<char>, Seq<char>)>,
    cs: Seq<(Seq<char>, Seq<char>)>,
    root: ObjTerm,
    keys: Set<Seq<char>>,
    prefix: Seq<char>,
    key: Seq<char>,
    child: ObjTerm,
)
    requires
        exports_all(es, part(root, keys), prefix),
        root.contains_key(key),
        root[key] == Term::Object(child),
        exports_all(cs, child, prefix + key + seq!['_', '_']),
    ensures
        exports_all(es + cs, part(root, keys.insert(key)), prefix),
{
    let more = es + cs;
    let wide = part(root, keys.insert(key));
    let inner = prefix + key + seq!['_', '_'];
    assert forall|i: int| 0 <= i < more.len() implies exports_leaf(
        wide,
        prefix,
        #[trigger] more[i],
    ) by {
        if i < es.len() {
            assert(exports_leaf(part(root, keys), prefix, es[i]));
            let path = choose|path: Seq<Seq<char>>| #[trigger]
                leaf_at(part(root, keys), path, es[i].1) && es[i].0 == prefix + env_name(path);
            lemma_part_get(root, keys, path);
            lemma_part_get(root, keys.insert(key), path);
            assert(leaf_at(wide, path, more[i].1));
        } else {
            let c = cs[i - es.len()];
            assert(exports_leaf(child, inner, c));
            let sub = choose|sub: Seq<Seq<char>>| #[trigger]
                leaf_at(child, sub, c.1) && c.0 == inner + env_name(sub);
            let path = seq![key] + sub;
            lemma_env_name_cons(key, sub);
            assert(path.drop_first() =~= sub);
            lemma_part_get(root, keys.insert(key), path);
            assert(leaf_at(wide, path, c.1));
            assert(inner + env_name(sub) =~= prefix + env_name(path));
        }
    }
    assert forall|path: Seq<Seq<char>>, t: Seq<char>| #[trigger]
        leaf_at(wide, path, t) implies names(more, prefix + env_name(path)) by {
        lemma_part_get(root, keys.insert(key), path);
        lemma_part_get(root, keys, path);
        if path[0] == key {
            assert(path.len() >= 2);
            let sub = path.drop_first();
            assert(leaf_at(child, sub, t));
            assert(names(cs, inner + env_name(sub)));
            let i = choose|i: int| 0 <= i < cs.len() && (#[trigger] cs[i]).0 == inner + env_name(sub);
            assert(path =~= seq![key] + sub);
            lemma_env_name_cons(key, sub);
            assert(inner + env_name(sub) =~= prefix + env_name(path));
            assert(more[es.len() + i].0 == prefix + env_name(path));
        } else {
            assert(leaf_at(part(root, keys), path, t));
            let i = choose|i: int| 0 <= i < es.len() && (#[trigger] es[i]).0 == prefix + env_name(path);
            assert(more[i].0 == prefix + env_name(path));
        }
    }
}

/// Pairs that export the part of an object under some keys export the part
/// under one key more, where that key holds something that is neither an
/// integer, a string nor an object with fields to export.
proof fn lemma_export_skip(
    es: Seq<(Seq<char>, Seq<char>)>,
    root: ObjTerm,
    keys: Set<Seq<char>>,
    prefix: Seq<char>,
)
    requires
        exports_all(es, part(root, keys), prefix),
        forall|k: Seq<char>| root.contains_key(k) ==> keys.contains(k),
    ensures
        exports_all(es, root, prefix),
{
    assert(part(root, keys) =~= root);
}

/// Appends to `out` the pairs that export the fields of `o` under `prefix`.
fn flatten(o: &Obj, prefix: &str, out: &mut Vec<(String, String)>)
    ensures
        final(out)@.len() >= old(out)@.len(),
        final(out)@.take(old(out)@.len() as int) == old(out)@,
        exports_all(pairs(final(out)@).skip(old(out)@.len() as int), o@, prefix@),
    decreases o,
{
    let start = out.len();
    let n = o.len();
    let mut j: usize = 0;
    proof {
        assert(out@.take(start as int) =~= old(out)@);
    }
    while j < n
        invariant
            j <= n,
            n == o.keys().len(),
            forall|k: Seq<char>| o.keys().contains(k) <==> o@.contains_key(k),
            start == old(out)@.len(),
            out@.len() >= start,
            out@.take(start as int) == old(out)@,
            exports_all(
                pairs(out@).skip(start as int),
                part(o@, o.keys().take(j as int).to_set()),
                prefix@,
            ),
        decreases n - j,
    {
        let ghost seen = o.keys().take(j as int).to_set();
        let ghost es = pairs(out@).skip(start as int);
        let ghost before = out@;
        let key = o.key_at(j);
        let mut name = prefix.to_owned();
        name.append(key.as_str());
        match o.value_at(j) {
            Value::Int(i) => {
                let text = int_text(*i);
                out.push((name, text));
                proof {
                    lemma_export_scalar(es, o@, seen, prefix@, key@, text@);
                    assert(pairs(out@).skip(start as int) =~= es.push((prefix@ + key@, text@)));
                }
            },
            Value::Str(text) => {
                out.push((name, text.clone()));
                proof {
                    lemma_export_scalar(es, o@, seen, prefix@, key@, text@);
                    assert(pairs(out@).skip(start as int) =~= es.push((prefix@ + key@, text@)));
                }
            },
            Value::Object(child) => {
                name.append("__");
                proof {
                    reveal_strlit("__");
                    assert("__"@ =~= seq!['_', '_']);
                }
                let ghost mid = out@.len();
                flatten(child, name.as_str(), out);
                proof {
                    let cs = pairs(out@).skip(mid as int);
                    assert(out@.take(mid as int) == before);
                    assert(pairs(out@).skip(start as int) =~= es + cs) by {
                        assert forall|i: int| 0 <= i < es.len() implies pairs(out@).skip(
                            start as int,
                        )[i] == es[i] by {
                            assert(out@[start + i] == out@.take(mid as int)[start + i]);
                        }
                    }
                    lemma_export_object(es, cs, o@, seen, prefix@, key@, child@);
                }
            },
        }
        proof {
            assert(o.keys().take(j + 1) =~= o.keys().take(j as int).push(key@));
            o.keys().take(j as int).lemma_push_to_set_commute(key@);
            assert(out@.take(before.len() as int) =~= before);
            assert(out@.take(start as int) =~= old(out)@) by {
                assert(before.take(start as int) == old(out)@);
                assert forall|i: int| 0 <= i < start implies out@[i] == old(out)@[i] by {
                    assert(before.take(start as int)[i] == before[i]);
                    assert(out@.take(before.len() as int)[i] == out@[i]);
                }
            }
        }
        j += 1;
    }
    proof {
        assert(o.keys().take(n as int) =~= o.keys());
        lemma_export_skip(pairs(out@).skip(start as int), o@, o.keys().to_set(), prefix@);
    }
}

/// A name that some pair has is still had by a pair after more pairs
/// have been appended.
proof fn lemma_names_kept(
    before: Seq<(String, String)>,
    after: Seq<(String, String)>,
    name: Seq<char>,
)
    requires
        before.len() <= after.len(),
        after.take(before.len() as int) == before,
        names(pairs(before), name),
    ensures
        names(pairs(after), name),
{
    let i = choose|i: int| 0 <= i < pairs(before).len() && (#[trigger] pairs(before)[i]).0 == name;
    assert(after.take(before.len() as int)[i] == after[i]);
    assert(pairs(after)[i].0 == name);
}

impl Context {
    /// The environment with which a script of the transaction starts, as
    /// pairs of a name and a text. Each variable at the top that holds an
    /// integer or a string is exported under its own name. Each field of a
    /// taken message that holds an integer or a string, at whatever depth,
    /// is exported under the topic and the keys that lead to it, joined by
    /// two underscores. Objects themselves are not exported.
    pub fn env(&self) -> (r: Vec<(String, String)>)
        ensures
            is_env_of(pairs(r@), self@),
    {
        let mut out: Vec<(String, String)> = Vec::new();
        let n = self.vars.len();
        let mut j: usize = 0;
        while j < n
            invariant
                j <= n,
                n == self.vars.keys().len(),
                forall|k: Seq<char>| self.vars.keys().contains(k) <==> self.vars@.contains_key(k),
                forall|i: int|
                    0 <= i < out@.len() ==> exports_var(self.vars@, #[trigger] pairs(out@)[i]),
                forall|k: int|
                    0 <= k < j && scalar_text(self.vars@[#[trigger] self.vars.keys()[k]]) is Some
                        ==> names(pairs(out@), self.vars.keys()[k]),
            decreases n - j,
        {
            let ghost before = out@;
            let key = self.vars.key_at(j);
            match self.vars.value_at(j) {
                Value::Int(i) => {
                    out.push((key.clone(), int_text(*i)));
                },
                Value::Str(text) => {
                    out.push((key.clone(), text.clone()));
                },
                Value::Object(_) => {},
            }
            proof {
                assert(out@.take(before.len() as int) =~= before);
                assert forall|i: int| 0 <= i < out@.len() implies exports_var(
                    self.vars@,
                    #[trigger] pairs(out@)[i],
                ) by {
                    if i < before.len() {
                        assert(pairs(out@)[i] == pairs(before)[i]);
                    }
                }
                assert forall|k: int|
                    0 <= k < j + 1 && scalar_text(
                        self.vars@[#[trigger] self.vars.keys()[k]],
                    ) is Some implies names(pairs(out@), self.vars.keys()[k]) by {
                    if k < j {
                        lemma_names_kept(before, out@, self.vars.keys()[k]);
                    } else {
                        assert(pairs(out@)[before.len() as int].0 == self.vars.keys()[k]);
                    }
                }
            }
            j += 1;
        }
        let ghost from_vars = out@;
        proof {
            assert forall|name: Seq<char>|
                self.vars@.contains_key(name) && scalar_text(
                    #[trigger] self.vars@[name],
                ) is Some implies names(pairs(from_vars), name) by {
                assert(self.vars.keys().contains(name));
                let k = choose|k: int|
                    0 <= k < self.vars.keys().len() && self.vars.keys()[k] == name;
                assert(names(pairs(out@), self.vars.keys()[k]));
            }
        }
        let m = self.msgs.len();
        let mut t: usize = 0;
        while t < m
            invariant
                t <= m,
                m == self.msgs.keys().len(),
                forall|k: Seq<char>| self.msgs.keys().contains(k) <==> self.msgs@.contains_key(k),
                from_vars.len() <= out@.len(),
                out@.take(from_vars.len() as int) == from_vars,
                forall|i: int|
                    0 <= i < out@.len() ==> exports_var(self.vars@, #[trigger] pairs(out@)[i])
                        || exports_field(self.msgs@, pairs(out@)[i]),
                forall|k: int, path: Seq<Seq<char>>, text: Seq<char>|
                    0 <= k < t && self.msgs@[self.msgs.keys()[k]] is Object && #[trigger] leaf_at(
                        self.msgs@[#[trigger] self.msgs.keys()[k]]->Object_0,
                        path,
                        text,
                    ) ==> names(
                        pairs(out@),
                        self.msgs.keys()[k] + seq!['_', '_'] + env_name(path),
                    ),
            decreases m - t,
        {
            let ghost before = out@;
            let topic = self.msgs.key_at(t);
            match self.msgs.value_at(t) {
                Value::Object(payload) => {
                    let mut prefix = topic.clone();
                    prefix.append("__");
                    proof {
                        reveal_strlit("__");
                        assert("__"@ =~= seq!['_', '_']);
                    }
                    flatten(payload, prefix.as_str(), &mut out);
                    proof {
                        let added = pairs(out@).skip(before.len() as int);
                        assert forall|i: int| before.len() <= i < out@.len() implies exports_field(
                            self.msgs@,
                            #[trigger] pairs(out@)[i],
                        ) by {
                            assert(added[i - before.len()] == pairs(out@)[i]);
                            assert(exports_leaf(payload@, prefix@, added[i - before.len()]));
                            assert(self.msgs@[topic@] is Object);
                        }
                        assert forall|path: Seq<Seq<char>>, text: Seq<char>| #[trigger]
                            leaf_at(payload@, path, text) implies names(
                            pairs(out@),
                            topic@ + seq!['_', '_'] + env_name(path),
                        ) by {
                            assert(names(added, prefix@ + env_name(path)));
                            let i = choose|i: int|
                                0 <= i < added.len() && (#[trigger] added[i]).0 == prefix@
                                    + env_name(path);
                            assert(pairs(out@)[before.len() + i].0 == added[i].0);
                        }
                    }
                },
                _ => {},
            }
            proof {
                assert(out@.take(before.len() as int) =~= before);
                assert(out@.take(from_vars.len() as int) =~= from_vars) by {
                    assert forall|i: int| 0 <= i < from_vars.len() implies out@[i]
                        == from_vars[i] by {
                        assert(before.take(from_vars.len() as int)[i] == before[i]);
                        assert(out@.take(before.len() as int)[i] == out@[i]);
                    }
                }
                assert forall|i: int| 0 <= i < out@.len() implies exports_var(
                    self.vars@,
                    #[trigger] pairs(out@)[i],
                ) || exports_field(self.msgs@, pairs(out@)[i]) by {
                    if i < before.len() {
                        assert(out@.take(before.len() as int)[i] == out@[i]);
                        assert(pairs(out@)[i] == pairs(before)[i]);
                    }
                }
                assert forall|k: int, path: Seq<Seq<char>>, text: Seq<char>|
                    0 <= k < t + 1 && self.msgs@[self.msgs.keys()[k]] is Object && #[trigger] leaf_at(
                        self.msgs@[#[trigger] self.msgs.keys()[k]]->Object_0,
                        path,
                        text,
                    ) implies names(
                    pairs(out@),
                    self.msgs.keys()[k] + seq!['_', '_'] + env_name(path),
                ) by {
                    if k < t {
                        lemma_names_kept(
                            before,
                            out@,
                            self.msgs.keys()[k] + seq!['_', '_'] + env_name(path),
                        );
                    }
                }
            }
            t += 1;
        }
        proof {
            assert forall|name: Seq<char>|
                self.vars@.contains_key(name) && scalar_text(
                    #[trigger] self.vars@[name],
                ) is Some implies names(pairs(out@), name) by {
                lemma_names_kept(from_vars, out@, name);
            }
            assert forall|topic: Seq<char>, path: Seq<Seq<char>>, text: Seq<char>|
                self.msgs@.contains_key(topic) && self.msgs@[topic] is Object && #[trigger] leaf_at(
                    self.msgs@[topic]->Object_0,
                    path,
                    text,
                ) implies names(pairs(out@), topic + seq!['_', '_'] + env_name(path)) by {
                assert(self.msgs.keys().contains(topic));
                let k = choose|k: int|
                    0 <= k < self.msgs.keys().len() && self.msgs.keys()[k] == topic;
                assert(leaf_at(self.msgs@[self.msgs.keys()[k]]->Object_0, path, text));
            }
        }
        out
    }
}

} // verus!
