//! Values of an agent's state: integers, strings and nested objects.
use crate::table::{entries_map, has_key_at, index_of, lemma_entry_in_map, Entry, Table};
use crate::text::{chars_of, clone_strings, string_from, views};
use vstd::prelude::*;

verus! {

/// The mathematical value that a [`Value`] stands for.
pub enum Term {
    Int(i32),
    Str(Seq<char>),
    Object(Map<Seq<char>, Term>),
}

/// What an [`Obj`] stands for: a map from keys to terms.
pub type ObjTerm = Map<Seq<char>, Term>;

/// A value of an agent's state.
#[derive(Debug)]
pub enum Value {
    Int(i32),
    Str(String),
    Object(Obj),
}

/// A mapping from string keys to values. Objects nest to any depth.
#[derive(Debug)]
pub struct Obj {
    pub(crate) table: Table<Value>,
}

/// The terms of a list of entries: each key with the term of the value
/// stored under it.
spec fn entries_terms(s: Seq<Entry<Value>>) -> ObjTerm
    decreases s,
{
    Map::new(
        |k: Seq<char>| exists|i: int| has_key_at(s, k, i),
        |k: Seq<char>|
            {
                let i = index_of(s, k);
                if 0 <= i < s.len() {
                    s[i].value.term()
                } else {
                    Term::Int(0)
                }
            },
    )
}

/// The terms of the values of a map.
spec fn terms_of(m: Map<Seq<char>, Value>) -> ObjTerm {
    Map::new(|k: Seq<char>| m.contains_key(k), |k: Seq<char>| m[k].term())
}

proof fn lemma_entries_terms(s: Seq<Entry<Value>>)
    ensures
        entries_terms(s) == terms_of(entries_map(s)),
{
    assert forall|k: Seq<char>| entries_terms(s).contains_key(k) implies #[trigger] entries_terms(
        s,
    )[k] == terms_of(entries_map(s))[k] by {
        let i = index_of(s, k);
        assert(has_key_at(s, k, i));
    }
    assert(entries_terms(s) =~= terms_of(entries_map(s)));
}

impl Value {
    /// The term that this value stands for.
    pub open spec fn term(&self) -> Term
        decreases self,
    {
        match self {
            Value::Int(i) => Term::Int(*i),
            Value::Str(s) => Term::Str(s@),
            Value::Object(o) => Term::Object(o.terms()),
        }
    }
}

impl View for Value {
    type V = Term;

    open spec fn view(&self) -> Term {
        self.term()
    }
}

impl View for Obj {
    type V = ObjTerm;

    open spec fn view(&self) -> ObjTerm {
        self.terms()
    }
}

impl Obj {
    /// The map of terms that this object stands for.
    pub closed spec fn terms(&self) -> ObjTerm
        decreases self,
    {
        entries_terms(self.table.entries@)
    }

    /// The keys in the order in which the object holds them.
    pub closed spec fn keys(&self) -> Seq<Seq<char>> {
        self.table.keys()
    }

    proof fn lemma_terms(&self)
        ensures
            self@ == terms_of(self.table.map()),
    {
        lemma_entries_terms(self.table.entries@);
    }

    /// An empty object.
    pub fn new() -> (o: Obj)
        ensures
            o@ == ObjTerm::empty(),
            o.keys() == Seq::<Seq<char>>::empty(),
    {
        let o = Obj { table: Table::new() };
        proof {
            o.lemma_terms();
            assert(o@ =~= ObjTerm::empty());
        }
        o
    }

    /// The number of keys. The keys that can be walked are exactly the keys
    /// of the object, each once.
    pub fn len(&self) -> (n: usize)
        ensures
            n == self.keys().len(),
            self.keys().no_duplicates(),
            forall|k: Seq<char>| self.keys().contains(k) <==> self@.contains_key(k),
    {
        proof {
            self.lemma_terms();
        }
        self.table.len()
    }

    /// Tells whether the object has no key.
    pub fn is_empty(&self) -> (b: bool)
        ensures
            b == (self.keys().len() == 0),
            b == (self@ == ObjTerm::empty()),
    {
        proof {
            self.lemma_terms();
            if self.table.map() == Map::<Seq<char>, Value>::empty() {
                assert(self@ =~= ObjTerm::empty());
            } else {
                assert(!(self.table.map() =~= Map::<Seq<char>, Value>::empty()));
                let k = choose|k: Seq<char>| self.table.map().contains_key(k);
                assert(self@.contains_key(k));
            }
        }
        self.table.is_empty()
    }

    /// The key at position `i` of the walk.
    pub fn key_at(&self, i: usize) -> (k: &String)
        requires
            i < self.keys().len(),
        ensures
            k@ == self.keys()[i as int],
    {
        self.table.key_at(i)
    }

    /// The value at position `i` of the walk. It is a part of the object,
    /// so a recursion that goes from an object to its values ends.
    pub fn value_at(&self, i: usize) -> (v: &Value)
        requires
            i < self.keys().len(),
        ensures
            self@.contains_key(self.keys()[i as int]),
            v@ == self@[self.keys()[i as int]],
            decreases_to!(self => v),
    {
        proof {
            self.lemma_terms();
            use_type_invariant(&self.table);
            lemma_entry_in_map(self.table.entries@, i as int);
        }
        &self.table.entries[i].value
    }

    /// Tells whether the object has the key `key`.
    pub fn contains_key(&self, key: &str) -> (b: bool)
        ensures
            b == self@.contains_key(key@),
    {
        proof {
            self.lemma_terms();
        }
        self.table.contains_key(key)
    }

    /// The value under `key`, if the object has that key.
    pub fn get(&self, key: &str) -> (r: Option<&Value>)
        ensures
            match r {
                Some(v) => self@.contains_key(key@) && v@ == self@[key@],
                None => !self@.contains_key(key@),
            },
    {
        proof {
            self.lemma_terms();
        }
        self.table.get(key)
    }

    /// Puts `value` under `key`, in place of what was there.
    pub fn insert(&mut self, key: String, value: Value)
        ensures
            final(self)@ == old(self)@.insert(key@, value@),
    {
        proof {
            self.lemma_terms();
        }
        self.table.insert(key, value);
        proof {
            self.lemma_terms();
            assert(self@ =~= old(self)@.insert(key@, value@));
        }
    }

    /// Takes the key `key` out of the object and returns what was under it.
    pub fn remove(&mut self, key: &str) -> (r: Option<Value>)
        ensures
            final(self)@ == old(self)@.remove(key@),
            match r {
                Some(v) => old(self)@.contains_key(key@) && v@ == old(self)@[key@],
                None => !old(self)@.contains_key(key@),
            },
    {
        proof {
            self.lemma_terms();
        }
        let r = self.table.remove(key);
        proof {
            self.lemma_terms();
            assert(self@ =~= old(self)@.remove(key@));
        }
        r
    }
}

impl Value {
    /// The integer `i` as a value.
    pub fn from_int(i: i32) -> (v: Value)
        ensures
            v@ == Term::Int(i),
    {
        Value::Int(i)
    }

    /// The string `s` as a value.
    pub fn from_str(s: &str) -> (v: Value)
        ensures
            v@ == Term::Str(s@),
    {
        Value::Str(s.to_owned())
    }

    /// The object `o` as a value.
    pub fn from_obj(o: Obj) -> (v: Value)
        ensures
            v@ == Term::Object(o@),
    {
        Value::Object(o)
    }

    /// Structural equality: the two values stand for the same term.
    pub fn same(&self, other: &Value) -> (r: bool)
        ensures
            r == (self@ == other@),
        decreases self,
    {
        match self {
            Value::Int(x) => match other {
                Value::Int(y) => *x == *y,
                _ => false,
            },
            Value::Str(x) => match other {
                Value::Str(y) => *x == *y,
                _ => false,
            },
            Value::Object(x) => match other {
                Value::Object(y) => x.same(y),
                _ => false,
            },
        }
    }
}

impl Obj {
    /// Structural equality: the two objects have the same keys, with equal
    /// values under each.
    pub fn same(&self, other: &Obj) -> (r: bool)
        ensures
            r == (self@ == other@),
        decreases self,
    {
        let n = self.len();
        let mut i: usize = 0;
        while i < n
            invariant
                i <= n,
                n == self.keys().len(),
                forall|k: Seq<char>| self.keys().contains(k) <==> self@.contains_key(k),
                forall|j: int|
                    0 <= j < i ==> other@.contains_key(#[trigger] self.keys()[j])
                        && other@[self.keys()[j]] == self@[self.keys()[j]],
            decreases n - i,
        {
            let mine = self.value_at(i);
            match other.get(self.key_at(i).as_str()) {
                None => {
                    return false;
                },
                Some(theirs) => {
                    if !mine.same(theirs) {
                        return false;
                    }
                },
            }
            i += 1;
        }
        let m = other.len();
        let mut j: usize = 0;
        while j < m
            invariant
                j <= m,
                m == other.keys().len(),
                forall|k: Seq<char>| other.keys().contains(k) <==> other@.contains_key(k),
                forall|k: int| 0 <= k < j ==> self@.contains_key(#[trigger] other.keys()[k]),
                forall|k: Seq<char>| self.keys().contains(k) <==> self@.contains_key(k),
                forall|a: int|
                    0 <= a < self.keys().len() ==> other@.contains_key(#[trigger] self.keys()[a])
                        && other@[self.keys()[a]] == self@[self.keys()[a]],
            decreases m - j,
        {
            if !self.contains_key(other.key_at(j).as_str()) {
                proof {
                    assert(other.keys().contains(other.keys()[j as int]));
                }
                return false;
            }
            j += 1;
        }
        proof {
            assert forall|k: Seq<char>| #[trigger] self@.contains_key(k) implies other@.contains_key(
                k,
            ) && other@[k] == self@[k] by {
                assert(self.keys().contains(k));
                let a = choose|a: int| 0 <= a < self.keys().len() && self.keys()[a] == k;
                assert(other@.contains_key(self.keys()[a]));
            }
            assert forall|k: Seq<char>| #[trigger] other@.contains_key(k) implies self@.contains_key(
                k,
            ) by {
                assert(other.keys().contains(k));
                let b = choose|b: int| 0 <= b < other.keys().len() && other.keys()[b] == k;
                assert(self@.contains_key(other.keys()[b]));
            }
            assert(self@ =~= other@);
        }
        true
    }
}

impl Clone for Value {
    fn clone(&self) -> (r: Value)
        ensures
            r@ == self@,
        decreases self,
    {
        match self {
            Value::Int(i) => Value::Int(*i),
            Value::Str(s) => Value::Str(s.clone()),
            Value::Object(o) => Value::Object(o.clone()),
        }
    }
}

impl Clone for Obj {
    fn clone(&self) -> (r: Obj)
        ensures
            r@ == self@,
            r.keys() == self.keys(),
        decreases self,
    {
        let n = self.table.entries.len();
        let mut entries: Vec<Entry<Value>> = Vec::new();
        let mut i: usize = 0;
        while i < n
            invariant
                i <= n,
                n == self.table.entries@.len(),
                entries@.len() == i,
                forall|j: int|
                    0 <= j < i ==> (#[trigger] entries@[j]).key@ == self.table.entries@[j].key@
                        && entries@[j].value@ == self.table.entries@[j].value@,
            decreases n - i,
        {
            let entry = &self.table.entries[i];
            entries.push(Entry { key: entry.key.clone(), value: entry.value.clone() });
            i += 1;
        }
        proof {
            use_type_invariant(&self.table);
            let s = self.table.entries@;
            let t = entries@;
            assert forall|a: int, b: int|
                0 <= a < t.len() && 0 <= b < t.len() && a != b implies t[a].key@ != t[b].key@ by {
                assert(s[a].key@ != s[b].key@);
            }
            lemma_entries_terms(s);
            lemma_entries_terms(t);
            assert forall|k: Seq<char>| #[trigger]
                entries_map(t).contains_key(k) <==> entries_map(s).contains_key(k) by {
                if entries_map(t).contains_key(k) {
                    assert(has_key_at(s, k, index_of(t, k)));
                }
                if entries_map(s).contains_key(k) {
                    assert(has_key_at(t, k, index_of(s, k)));
                }
            }
            assert forall|k: Seq<char>| entries_map(s).contains_key(k) implies #[trigger] entries_map(
                t,
            )[k]@ == entries_map(s)[k]@ by {
                let a = index_of(s, k);
                assert(has_key_at(t, k, a));
                lemma_entry_in_map(s, a);
                lemma_entry_in_map(t, a);
            }
            assert(terms_of(entries_map(t)) =~= terms_of(entries_map(s)));
            assert(crate::table::entries_keys(t) =~= crate::table::entries_keys(s));
        }
        Obj { table: Table { entries } }
    }
}

impl PartialEq for Value {
    fn eq(&self, other: &Value) -> (r: bool) {
        self.same(other)
    }
}

impl vstd::std_specs::cmp::PartialEqSpecImpl for Value {
    open spec fn obeys_eq_spec() -> bool {
        true
    }

    open spec fn eq_spec(&self, other: &Value) -> bool {
        self@ == other@
    }
}

impl PartialEq for Obj {
    fn eq(&self, other: &Obj) -> (r: bool) {
        self.same(other)
    }
}

impl vstd::std_specs::cmp::PartialEqSpecImpl for Obj {
    open spec fn obeys_eq_spec() -> bool {
        true
    }

    open spec fn eq_spec(&self, other: &Obj) -> bool {
        self@ == other@
    }
}

/// A path into nested objects: the keys to follow, outermost first.
#[derive(Debug)]
pub struct Identifier(pub Vec<String>);

impl View for Identifier {
    type V = Seq<Seq<char>>;

    open spec fn view(&self) -> Seq<Seq<char>> {
        views(self.0@)
    }
}

/// The segments of a path written out with a dot between neighbours.
pub open spec fn dotted(path: Seq<Seq<char>>) -> Seq<char>
    decreases path.len(),
{
    if path.len() == 0 {
        Seq::empty()
    } else if path.len() == 1 {
        path[0]
    } else {
        dotted(path.drop_last()) + seq!['.'] + path.last()
    }
}

/// `path` is the path that `s` writes: it has a segment, no segment holds
/// a dot, and the segments with dots between them are `s`.
pub open spec fn is_path_of(path: Seq<Seq<char>>, s: Seq<char>) -> bool {
    &&& path.len() >= 1
    &&& dotted(path) == s
    &&& forall|i: int| 0 <= i < path.len() ==> !(#[trigger] path[i]).contains('.')
}

/// The path that `s` writes.
pub open spec fn path_of(s: Seq<char>) -> Seq<Seq<char>> {
    choose|path: Seq<Seq<char>>| is_path_of(path, s)
}

/// A text writes at most one path.
pub proof fn lemma_path_unique(p: Seq<Seq<char>>, q: Seq<Seq<char>>, s: Seq<char>)
    requires
        is_path_of(p, s),
        is_path_of(q, s),
    ensures
        p == q,
    decreases p.len(),
{
    if p.len() == 1 || q.len() == 1 {
        if p.len() >= 2 {
            let a = dotted(p.drop_last());
            assert(s[a.len() as int] == '.');
            assert(q[0].contains('.'));
        }
        if q.len() >= 2 {
            let b = dotted(q.drop_last());
            assert(s[b.len() as int] == '.');
            assert(p[0].contains('.'));
        }
        assert(p =~= q);
    } else {
        let a = dotted(p.drop_last());
        let x = p.last();
        let b = dotted(q.drop_last());
        let y = q.last();
        assert(s == a + seq!['.'] + x);
        assert(s == b + seq!['.'] + y);
        if x.len() < y.len() {
            let k = a.len() - b.len() - 1;
            assert(s[a.len() as int] == '.');
            assert(y[k] == s[a.len() as int]);
            assert(y.contains('.'));
        }
        if y.len() < x.len() {
            let k = b.len() - a.len() - 1;
            assert(s[b.len() as int] == '.');
            assert(x[k] == s[b.len() as int]);
            assert(x.contains('.'));
        }
        assert(a.len() == b.len());
        assert forall|i: int| 0 <= i < a.len() implies a[i] == b[i] by {
            assert(a[i] == s[i]);
            assert(b[i] == s[i]);
        }
        assert(a =~= b);
        assert forall|i: int| 0 <= i < x.len() implies x[i] == y[i] by {
            assert(x[i] == s[a.len() + 1 + i]);
            assert(y[i] == s[b.len() + 1 + i]);
        }
        assert(x =~= y);
        assert(is_path_of(p.drop_last(), a));
        assert(is_path_of(q.drop_last(), a));
        lemma_path_unique(p.drop_last(), q.drop_last(), a);
        assert(p =~= p.drop_last().push(x));
        assert(q =~= q.drop_last().push(y));
    }
}

/// What is found in `root` at the end of `path`. Nothing is found where
/// the path is empty, where a key on the way is missing, or where a key
/// before the last leads to something that is no object.
pub open spec fn path_get(path: Seq<Seq<char>>, root: ObjTerm) -> Option<Term>
    decreases path.len(),
{
    if path.len() == 0 {
        None
    } else if !root.contains_key(path[0]) {
        None
    } else if path.len() == 1 {
        Some(root[path[0]])
    } else {
        match root[path[0]] {
            Term::Object(child) => path_get(path.drop_first(), child),
            _ => None,
        }
    }
}

/// The object under `key` in `root`, or an empty object where `root` has
/// nothing there or something that is no object.
pub open spec fn child_or_empty(root: ObjTerm, key: Seq<char>) -> ObjTerm {
    if root.contains_key(key) {
        match root[key] {
            Term::Object(child) => child,
            _ => ObjTerm::empty(),
        }
    } else {
        ObjTerm::empty()
    }
}

/// `root` with `v` at the end of `path`. A key on the way that is missing,
/// or that leads to something that is no object, gets a fresh object.
pub open spec fn path_set(path: Seq<Seq<char>>, root: ObjTerm, v: Term) -> ObjTerm
    decreases path.len(),
{
    if path.len() == 0 {
        root
    } else if path.len() == 1 {
        root.insert(path[0], v)
    } else {
        root.insert(
            path[0],
            Term::Object(path_set(path.drop_first(), child_or_empty(root, path[0]), v)),
        )
    }
}

/// `root` without the last key of `path`. Nothing changes where a key on
/// the way is missing or leads to something that is no object.
pub open spec fn path_unset(path: Seq<Seq<char>>, root: ObjTerm) -> ObjTerm
    decreases path.len(),
{
    if path.len() == 0 {
        root
    } else if path.len() == 1 {
        root.remove(path[0])
    } else if root.contains_key(path[0]) {
        match root[path[0]] {
            Term::Object(child) => root.insert(
                path[0],
                Term::Object(path_unset(path.drop_first(), child)),
            ),
            _ => root,
        }
    } else {
        root
    }
}

/// After a value has been set at a path that is not empty, looking the
/// path up finds that value.
pub proof fn law_get_after_set(path: Seq<Seq<char>>, root: ObjTerm, v: Term)
    requires
        path.len() > 0,
    ensures
        path_get(path, path_set(path, root, v)) == Some(v),
    decreases path.len(),
{
    if path.len() > 1 {
        law_get_after_set(path.drop_first(), child_or_empty(root, path[0]), v);
    }
}

/// After a value has been set at a path and the path has been unset,
/// looking the path up finds nothing.
pub proof fn law_get_after_set_unset(path: Seq<Seq<char>>, root: ObjTerm, v: Term)
    ensures
        path_get(path, path_unset(path, path_set(path, root, v))) is None,
    decreases path.len(),
{
    if path.len() > 1 {
        law_get_after_set_unset(path.drop_first(), child_or_empty(root, path[0]), v);
    }
}

impl Clone for Identifier {
    fn clone(&self) -> (r: Identifier)
        ensures
            r@ == self@,
    {
        Identifier(clone_strings(&self.0))
    }
}

impl Identifier {
    /// The path with the segments of `i_ast`.
    pub fn from_ast(i_ast: &crate::ast::Identifier) -> (id: Identifier)
        ensures
            id@ == views(i_ast@),
    {
        Identifier(clone_strings(i_ast))
    }

    /// The path written as `s`, with a dot between its segments: the text
    /// between two dots, before the first and after the last is a segment
    /// each, so the result has at least one segment and no segment holds a
    /// dot.
    pub fn from_str(s: &str) -> (id: Identifier)
        ensures
            id@ == path_of(s@),
            is_path_of(id@, s@),
    {
        let chars = chars_of(s);
        let mut segments: Vec<String> = Vec::new();
        let mut start: usize = 0;
        let mut i: usize = 0;
        while i < chars.len()
            invariant
                start <= i <= chars@.len(),
                dotted(views(segments@).push(chars@.subrange(start as int, i as int)))
                    == chars@.subrange(0, i as int),
                forall|j: int|
                    0 <= j < segments@.len() ==> !(#[trigger] views(segments@)[j]).contains('.'),
                !chars@.subrange(start as int, i as int).contains('.'),
            decreases chars.len() - i,
        {
            let ghost done = views(segments@);
            let ghost cur = chars@.subrange(start as int, i as int);
            if chars[i] == '.' {
                segments.push(string_from(&chars, start, i));
                start = i + 1;
                proof {
                    let empty = chars@.subrange(start as int, start as int);
                    assert(views(segments@) =~= done.push(cur));
                    assert(views(segments@).push(empty).drop_last() =~= done.push(cur));
                    assert(dotted(done.push(cur)) + seq!['.'] + empty =~= chars@.subrange(
                        0,
                        start as int,
                    ));
                }
            } else {
                proof {
                    let next = chars@.subrange(start as int, i + 1);
                    assert(next =~= cur.push(chars@[i as int]));
                    assert(done.push(next).drop_last() =~= done);
                    assert(done.push(cur).drop_last() =~= done);
                    if done.len() == 0 {
                        assert(next =~= chars@.subrange(0, i + 1));
                    } else {
                        assert(dotted(done) + seq!['.'] + next =~= (dotted(done) + seq!['.']
                            + cur).push(chars@[i as int]));
                        assert(chars@.subrange(0, i + 1) =~= chars@.subrange(0, i as int).push(
                            chars@[i as int],
                        ));
                    }
                    assert forall|j: int| 0 <= j < next.len() implies next[j] != '.' by {
                        if j < cur.len() {
                            assert(cur[j] == next[j]);
                            assert(cur.contains(cur[j]));
                        }
                    }
                }
            }
            i += 1;
        }
        let ghost done = views(segments@);
        let ghost cur = chars@.subrange(start as int, i as int);
        segments.push(string_from(&chars, start, i));
        proof {
            assert(views(segments@) =~= done.push(cur));
            assert(chars@.subrange(0, i as int) =~= chars@);
            assert(is_path_of(views(segments@), s@));
            lemma_path_unique(views(segments@), path_of(s@), s@);
        }
        Identifier(segments)
    }

    /// Looks the path up in `root`.
    pub fn get<'b>(&self, root: &'b Obj) -> (r: Option<&'b Value>)
        ensures
            match r {
                Some(v) => path_get(self@, root@) == Some(v@),
                None => path_get(self@, root@) is None,
            },
    {
        let n = self.0.len();
        let mut cur = root;
        let mut i: usize = 0;
        assert(self@.skip(0) =~= self@);
        while i < n
            invariant
                i <= n,
                n == self@.len(),
                n == self.0@.len(),
                path_get(self@, root@) == path_get(self@.skip(i as int), cur@),
            decreases n - i,
        {
            proof {
                assert(self@.skip(i as int)[0] == self.0@[i as int]@);
                assert(self@.skip(i as int).drop_first() =~= self@.skip(i + 1));
            }
            match cur.get(self.0[i].as_str()) {
                None => {
                    return None;
                },
                Some(v) => {
                    if i + 1 == n {
                        return Some(v);
                    }
                    match v {
                        Value::Object(o) => {
                            cur = o;
                        },
                        _ => {
                            return None;
                        },
                    }
                },
            }
            i += 1;
        }
        None
    }

    /// Tells whether something is found in `root` at the end of the path.
    pub fn is_set(&self, root: &Obj) -> (b: bool)
        ensures
            b == path_get(self@, root@).is_some(),
    {
        match self.get(root) {
            Some(_) => true,
            None => false,
        }
    }

    /// Puts `value` at the end of the path in `root`, making the objects on
    /// the way where they are missing.
    pub fn set(&self, root: &mut Obj, value: Value)
        ensures
            final(root)@ == path_set(self@, old(root)@, value@),
    {
        Identifier::set_slice(&self.0, 0, root, value);
        assert(self@.skip(0) =~= self@);
    }

    fn set_slice(path: &Vec<String>, from: usize, o: &mut Obj, value: Value)
        requires
            from <= path@.len(),
        ensures
            final(o)@ == path_set(views(path@).skip(from as int), old(o)@, value@),
        decreases path@.len() - from,
    {
        let ghost rest = views(path@).skip(from as int);
        if from >= path.len() {
            return ;
        }
        proof {
            assert(rest[0] == path@[from as int]@);
            assert(rest.drop_first() =~= views(path@).skip(from + 1));
        }
        let next = &path[from];
        if from + 1 == path.len() {
            o.insert(next.clone(), value);
            return ;
        }
        let mut child = match o.remove(next.as_str()) {
            Some(Value::Object(child)) => child,
            _ => Obj::new(),
        };
        Identifier::set_slice(path, from + 1, &mut child, value);
        o.insert(next.clone(), Value::Object(child));
        proof {
            assert(old(o)@.remove(rest[0]).insert(rest[0], Term::Object(child@)) =~= old(
                o,
            )@.insert(rest[0], Term::Object(child@)));
        }
    }

    /// Takes the last key of the path out of `root`, where the objects on
    /// the way exist.
    pub fn unset(&self, root: &mut Obj)
        ensures
            final(root)@ == path_unset(self@, old(root)@),
    {
        Identifier::unset_slice(&self.0, 0, root);
        assert(self@.skip(0) =~= self@);
    }

    fn unset_slice(path: &Vec<String>, from: usize, o: &mut Obj)
        requires
            from <= path@.len(),
        ensures
            final(o)@ == path_unset(views(path@).skip(from as int), old(o)@),
        decreases path@.len() - from,
    {
        let ghost rest = views(path@).skip(from as int);
        if from >= path.len() {
            return ;
        }
        proof {
            assert(rest[0] == path@[from as int]@);
            assert(rest.drop_first() =~= views(path@).skip(from + 1));
        }
        let next = &path[from];
        if from + 1 == path.len() {
            o.remove(next.as_str());
            return ;
        }
        match o.remove(next.as_str()) {
            Some(Value::Object(child)) => {
                let mut child = child;
                Identifier::unset_slice(path, from + 1, &mut child);
                o.insert(next.clone(), Value::Object(child));
                proof {
                    assert(old(o)@.remove(rest[0]).insert(rest[0], Term::Object(child@)) =~= old(
                        o,
                    )@.insert(rest[0], Term::Object(child@)));
                }
            },
            Some(other) => {
                o.insert(next.clone(), other);
                proof {
                    assert(old(o)@.remove(rest[0]).insert(rest[0], other@) =~= old(o)@);
                }
            },
            None => {
                proof {
                    assert(old(o)@.remove(rest[0]) =~= old(o)@);
                }
            },
        }
    }
}

} // verus!
