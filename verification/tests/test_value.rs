use glop::runtime::script::int_text;
use glop::table::Table;
use glop::text::{chars_of, str_eq, string_from};
use glop::value::{Identifier, Obj, Value};

fn strs(v: &[&str]) -> Vec<String> {
    v.iter().map(|s| s.to_string()).collect()
}

fn obj1(key: &str, value: Value) -> Obj {
    let mut o = Obj::new();
    o.insert(key.to_string(), value);
    o
}

#[test]
fn value_constructors() {
    assert!(matches!(Value::from_int(-3), Value::Int(-3)));
    match Value::from_str("héllo") {
        Value::Str(s) => assert_eq!(s, "héllo"),
        _ => panic!("expected a string"),
    }
    match Value::from_obj(obj1("k", Value::from_int(1))) {
        Value::Object(o) => assert_eq!(o.get("k"), Some(&Value::Int(1))),
        _ => panic!("expected an object"),
    }
}

#[test]
fn equality_is_structural_and_only_between_same_tags() {
    assert_eq!(Value::from_int(1), Value::from_int(1));
    assert_ne!(Value::from_int(1), Value::from_int(2));
    assert_ne!(Value::from_int(1), Value::from_str("1"));
    assert_eq!(Value::from_str("a"), Value::from_str("a"));
    assert_ne!(Value::from_str("a"), Value::from_str("b"));
    assert_ne!(Value::from_str(""), Value::from_obj(Obj::new()));
    assert_eq!(Value::from_obj(Obj::new()), Value::from_obj(Obj::new()));
}

#[test]
fn object_equality_does_not_see_the_order_of_insertion() {
    let mut a = Obj::new();
    a.insert("x".to_string(), Value::from_int(1));
    a.insert("y".to_string(), Value::from_obj(obj1("z", Value::from_str("deep"))));
    let mut b = Obj::new();
    b.insert("y".to_string(), Value::from_obj(obj1("z", Value::from_str("deep"))));
    b.insert("x".to_string(), Value::from_int(1));
    assert_eq!(a, b);
    assert!(a.same(&b));

    let mut c = Obj::new();
    c.insert("x".to_string(), Value::from_int(1));
    assert_ne!(a, c);
    assert_ne!(c, a);
    c.insert("y".to_string(), Value::from_obj(obj1("z", Value::from_str("other"))));
    assert_ne!(a, c);
    let mut d = Obj::new();
    d.insert("x".to_string(), Value::from_int(1));
    d.insert("w".to_string(), Value::from_obj(obj1("z", Value::from_str("deep"))));
    assert_ne!(a, d);
}

#[test]
fn clone_is_deep_and_equal() {
    let first = Value::from_obj(obj1("a", Value::from_obj(obj1("b", Value::from_int(5)))));
    let copy = first.clone();
    assert_eq!(first, copy);
    let mut changed = match copy {
        Value::Object(o) => o,
        _ => panic!("expected an object"),
    };
    Identifier::from_str("a.b").set(&mut changed, Value::from_int(6));
    assert_ne!(first, Value::from_obj(changed));
}

#[test]
fn obj_insert_get_remove() {
    let mut o = Obj::new();
    assert!(o.is_empty());
    assert_eq!(o.len(), 0);
    o.insert("a".to_string(), Value::from_int(1));
    o.insert("b".to_string(), Value::from_int(2));
    o.insert("a".to_string(), Value::from_int(3));
    assert_eq!(o.len(), 2);
    assert!(!o.is_empty());
    assert_eq!(o.get("a"), Some(&Value::from_int(3)));
    assert_eq!(o.get("b"), Some(&Value::from_int(2)));
    assert_eq!(o.get("c"), None);
    assert!(o.contains_key("a"));
    assert!(!o.contains_key("c"));
    let mut seen = Vec::new();
    for i in 0..o.len() {
        seen.push((o.key_at(i).clone(), o.value_at(i).clone()));
    }
    seen.sort_by(|x, y| x.0.cmp(&y.0));
    assert_eq!(
        seen,
        vec![("a".to_string(), Value::from_int(3)), ("b".to_string(), Value::from_int(2))]
    );
    assert_eq!(o.remove("a"), Some(Value::from_int(3)));
    assert_eq!(o.remove("a"), None);
    assert_eq!(o.len(), 1);
    assert_eq!(o.get("a"), None);
    assert_eq!(o.get("b"), Some(&Value::from_int(2)));
}

#[test]
fn table_insert_get_remove() {
    let mut t: Table<u32> = Table::new();
    assert!(t.is_empty());
    t.insert("one".to_string(), 1);
    t.insert("two".to_string(), 2);
    t.insert("one".to_string(), 11);
    assert_eq!(t.len(), 2);
    assert_eq!(t.get("one"), Some(&11));
    assert_eq!(t.get("two"), Some(&2));
    assert_eq!(t.get("three"), None);
    assert!(t.contains_key("two"));
    assert_eq!(t.remove("one"), Some(11));
    assert_eq!(t.remove("one"), None);
    assert_eq!(t.len(), 1);
    assert_eq!(t.key_at(0), "two");
    assert_eq!(*t.value_at(0), 2);
    assert_eq!(t.remove("two"), Some(2));
    assert!(t.is_empty());
}

#[test]
fn identifier_from_str_splits_at_dots() {
    assert_eq!(Identifier::from_str("a.b.c").0, strs(&["a", "b", "c"]));
    assert_eq!(Identifier::from_str("abc").0, strs(&["abc"]));
    assert_eq!(Identifier::from_str("").0, strs(&[""]));
    assert_eq!(Identifier::from_str("a..b").0, strs(&["a", "", "b"]));
    assert_eq!(Identifier::from_str(".a.").0, strs(&["", "a", ""]));
    assert_eq!(Identifier::from_str("é.ü").0, strs(&["é", "ü"]));
}

#[test]
fn identifier_from_ast_keeps_the_segments() {
    let segments = strs(&["x", "y"]);
    assert_eq!(Identifier::from_ast(&segments).0, segments);
    assert_eq!(Identifier::from_ast(&segments).clone().0, segments);
}

#[test]
fn get_walks_the_segments() {
    let mut root = Obj::new();
    root.insert("a".to_string(), Value::from_obj(obj1("b", Value::from_obj(obj1("c", Value::from_int(7))))));
    root.insert("n".to_string(), Value::from_int(1));
    root.insert("b".to_string(), Value::from_int(2));
    assert_eq!(Identifier::from_str("a.b.c").get(&root), Some(&Value::from_int(7)));
    assert_eq!(
        Identifier::from_str("a.b").get(&root),
        Some(&Value::from_obj(obj1("c", Value::from_int(7))))
    );
    assert_eq!(Identifier::from_str("n").get(&root), Some(&Value::from_int(1)));
    // a key that is missing
    assert_eq!(Identifier::from_str("a.x").get(&root), None);
    assert_eq!(Identifier::from_str("x").get(&root), None);
    // a segment before the last that is no object
    assert_eq!(Identifier::from_str("n.b").get(&root), None);
    assert_eq!(Identifier::from_str("a.b.c.d").get(&root), None);
    // the empty path
    assert_eq!(Identifier(Vec::new()).get(&root), None);
    assert!(Identifier::from_str("a.b.c").is_set(&root));
    assert!(!Identifier::from_str("n.b").is_set(&root));
    assert!(!Identifier(Vec::new()).is_set(&root));
}

#[test]
fn set_makes_the_objects_on_the_way() {
    let mut root = Obj::new();
    Identifier::from_str("a.b.c").set(&mut root, Value::from_int(1));
    assert_eq!(
        root,
        obj1("a", Value::from_obj(obj1("b", Value::from_obj(obj1("c", Value::from_int(1))))))
    );
    // a neighbour keeps its place
    Identifier::from_str("a.b.d").set(&mut root, Value::from_int(2));
    assert_eq!(Identifier::from_str("a.b.c").get(&root), Some(&Value::from_int(1)));
    assert_eq!(Identifier::from_str("a.b.d").get(&root), Some(&Value::from_int(2)));
    // what is no object on the way is replaced
    Identifier::from_str("a.b.c.e").set(&mut root, Value::from_str("deep"));
    assert_eq!(
        Identifier::from_str("a.b.c").get(&root),
        Some(&Value::from_obj(obj1("e", Value::from_str("deep"))))
    );
    assert_eq!(Identifier::from_str("a.b.d").get(&root), Some(&Value::from_int(2)));
    // the empty path changes nothing
    let before = root.clone();
    Identifier(Vec::new()).set(&mut root, Value::from_int(9));
    assert_eq!(root, before);
}

#[test]
fn unset_takes_the_last_key_out() {
    let mut root = Obj::new();
    Identifier::from_str("a.b").set(&mut root, Value::from_int(1));
    Identifier::from_str("a.c").set(&mut root, Value::from_int(2));
    Identifier::from_str("n").set(&mut root, Value::from_int(3));
    let before = root.clone();
    // nothing happens where the way is missing or is no object
    Identifier::from_str("x.y").unset(&mut root);
    assert_eq!(root, before);
    Identifier::from_str("n.y").unset(&mut root);
    assert_eq!(root, before);
    Identifier::from_str("a.b.z").unset(&mut root);
    assert_eq!(root, before);
    Identifier(Vec::new()).unset(&mut root);
    assert_eq!(root, before);

    Identifier::from_str("a.b").unset(&mut root);
    assert_eq!(Identifier::from_str("a.b").get(&root), None);
    assert_eq!(Identifier::from_str("a.c").get(&root), Some(&Value::from_int(2)));
    Identifier::from_str("a").unset(&mut root);
    assert_eq!(root, obj1("n", Value::from_int(3)));
}

#[test]
fn set_then_get_and_set_unset_then_get() {
    for path in ["k", "a.b", "a.b.c.d", "n.x"] {
        for v in [Value::from_int(5), Value::from_str("five")] {
            let mut root = obj1("n", Value::from_int(0));
            let id = Identifier::from_str(path);
            id.set(&mut root, v.clone());
            assert_eq!(id.get(&root), Some(&v));
            id.unset(&mut root);
            assert_eq!(id.get(&root), None);
            assert!(!id.is_set(&root));
        }
    }
}

#[test]
fn text_helpers() {
    assert!(str_eq("", ""));
    assert!(str_eq("añb", "añb"));
    assert!(!str_eq("abc", "abd"));
    assert!(!str_eq("abc", "ab"));
    assert_eq!(chars_of("añ!"), vec!['a', 'ñ', '!']);
    let chars = chars_of("hello");
    assert_eq!(string_from(&chars, 1, 4), "ell");
    assert_eq!(string_from(&chars, 2, 2), "");
}

#[test]
fn integers_in_decimal() {
    assert_eq!(int_text(0), "0");
    assert_eq!(int_text(7), "7");
    assert_eq!(int_text(10), "10");
    assert_eq!(int_text(-1), "-1");
    assert_eq!(int_text(1203), "1203");
    assert_eq!(int_text(i32::MAX), "2147483647");
    assert_eq!(int_text(i32::MIN), "-2147483648");
}
