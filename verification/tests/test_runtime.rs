use glop::ast;
use glop::grammar;
use glop::runtime::{Error, Match, State, Storage};
use glop::value::{Obj, Value};

const SIMPLE_EQUAL: &'static str = r#"when (foo == bar) { unset foo; }"#;
const SIMPLE_NOT_EQUAL: &'static str = r#"when (foo != bar) { set foo bar; }"#;
const SIMPLE_IS_SET: &'static str = r#"when (is_set foo) { unset foo; }"#;

fn parse_one_match(s: &str) -> ast::Match {
    let mut g = grammar::glop(s).unwrap();
    assert_eq!(g.matches.len(), 1);
    g.matches.pop().unwrap()
}

/// The rule `when (message init) { }`. The text form asks for an action,
/// so a rule without one is built directly.
fn simple_init() -> ast::Match {
    ast::Match { conditions: vec![ast::Condition::Message("init".to_string())], actions: vec![] }
}

/// The rule `when (message foo, message bar) { }`.
fn two_msgs() -> ast::Match {
    ast::Match {
        conditions: vec![
            ast::Condition::Message("foo".to_string()),
            ast::Condition::Message("bar".to_string()),
        ],
        actions: vec![],
    }
}

fn obj_of(key: &str, value: Value) -> Obj {
    let mut o = Obj::new();
    o.insert(key.to_string(), value);
    o
}

#[test]
fn unmatched_init_empty_state() {
    let m_ast = simple_init();
    let st = State::new(Storage::new());
    let m_exc = Match::new_from_ast(&m_ast).unwrap();
    match st.eval(&m_exc) {
        Some(_) => panic!("unexpected match"),
        None => (),
    }
}

#[test]
fn matched_init_message() {
    let m_ast = simple_init();
    let mut st = State::new(Storage::new());
    st.mut_storage().push_msg("init", Obj::new());
    let m_exc = Match::new_from_ast(&m_ast).unwrap();
    let txn = match st.eval(&m_exc.clone()) {
        Some(txn) => {
            assert_eq!(txn.seq, 0);
            let ctx = txn.context();
            assert!(ctx.msgs.contains_key("init"));
            assert_eq!(ctx.msgs.len(), 1);
            txn
        }
        None => panic!("expected match"),
    };
    assert!(st.commit(txn).is_ok());
    assert_eq!(st.storage().seq(), 1);

    match st.eval(&m_exc.clone()) {
        Some(_) => panic!("unexpected match"),
        None => {}
    }
    assert_eq!(st.storage().seq(), 1);
}

#[test]
fn matched_only_init_message() {
    let m_ast = simple_init();
    let mut st = State::new(Storage::new());
    st.mut_storage().push_msg("init", Obj::new());
    st.mut_storage().push_msg("blah", obj_of("foo", Value::Str("bar".to_string())));
    let m_exc = Match::new_from_ast(&m_ast).unwrap();
    let txn = match st.eval(&m_exc.clone()) {
        Some(txn) => {
            assert_eq!(txn.seq, 0);
            let ctx = txn.context();
            assert!(ctx.msgs.contains_key("init"));
            assert_eq!(ctx.msgs.len(), 1);
            txn
        }
        None => panic!("expected match"),
    };
    assert!(st.commit(txn).is_ok());

    match st.eval(&m_exc.clone()) {
        Some(_) => panic!("unexpected match"),
        None => {}
    }
    assert!(st.storage().peek_msg("blah").is_some());
}

#[test]
fn matched_two_messages() {
    let m_ast = two_msgs();
    let mut st = State::new(Storage::new());
    st.mut_storage().push_msg("foo", Obj::new());
    st.mut_storage().push_msg("bar", Obj::new());
    st.mut_storage().push_msg("foo", Obj::new());
    st.mut_storage().push_msg("bar", Obj::new());
    let m_exc = Match::new_from_ast(&m_ast).unwrap();

    for i in 0..2 {
        let txn = match st.eval(&m_exc.clone()) {
            Some(txn) => {
                assert_eq!(txn.seq, i);
                let ctx = txn.context();
                assert!(ctx.msgs.contains_key("foo"));
                assert!(ctx.msgs.contains_key("bar"));
                assert_eq!(ctx.msgs.len(), 2);
                txn
            }
            None => panic!("expected match"),
        };
        assert!(st.commit(txn).is_ok());
    }
    match st.eval(&m_exc.clone()) {
        Some(_) => panic!("unexpected match"),
        None => {}
    }
}

#[test]
fn match_equal() {
    let m_ast = parse_one_match(SIMPLE_EQUAL);
    {
        let mut st = State::new(Storage::new());
        st.mut_storage().mut_vars().insert("foo".to_string(), Value::from_str("bar"));
        let m_exc = Match::new_from_ast(&m_ast).unwrap();
        let txn = match st.eval(&m_exc.clone()) {
            Some(txn) => {
                assert_eq!(txn.seq, 0);
                txn
            }
            None => panic!("expected match"),
        };
        assert!(st.commit(txn).is_ok());
        // foo is now unset
        assert!(st.storage().vars().is_empty());
        match st.eval(&m_exc.clone()) {
            Some(_) => panic!("unexpected match"),
            None => {}
        }
    }
    {
        let mut st = State::new(Storage::new());
        st.mut_storage().mut_vars().insert("foo".to_string(), Value::from_str("blah"));
        let m_exc = Match::new_from_ast(&m_ast).unwrap();
        match st.eval(&m_exc.clone()) {
            Some(_) => panic!("unexpected match"),
            None => {}
        }
    }
}

#[test]
fn match_not_equal() {
    let m_ast = parse_one_match(SIMPLE_NOT_EQUAL);
    {
        let mut st = State::new(Storage::new());
        st.mut_storage().mut_vars().insert("foo".to_string(), Value::from_str("blah"));
        let m_exc = Match::new_from_ast(&m_ast).unwrap();
        match st.eval(&m_exc.clone()) {
            Some(txn) => {
                assert_eq!(txn.seq, 0);
            }
            None => panic!("expected match"),
        }
    }
    {
        let mut st = State::new(Storage::new());
        st.mut_storage().mut_vars().insert("foo".to_string(), Value::from_str("bar"));
        let m_exc = Match::new_from_ast(&m_ast).unwrap();
        match st.eval(&m_exc.clone()) {
            Some(_) => panic!("unexpected match"),
            None => {}
        }
    }
}

#[test]
fn simple_commit_progression() {
    let m_exc_ne = Match::new_from_ast(&parse_one_match(SIMPLE_NOT_EQUAL)).unwrap();
    let m_exc_eq = Match::new_from_ast(&parse_one_match(SIMPLE_EQUAL)).unwrap();
    let mut st = State::new(Storage::new());
    st.mut_storage().mut_vars().insert("foo".to_string(), Value::from_str("blah"));
    // foo starts out != bar so we expect a match and apply
    let txn = match st.eval(&m_exc_ne.clone()) {
        Some(txn) => {
            assert_eq!(txn.seq, 0);
            txn
        }
        None => panic!("expected match"),
    };
    assert!(st.commit(txn).is_ok());
    assert_eq!(st.storage().vars().get("foo"), Some(&Value::from_str("bar")));
    // above match sets foo == bar so m_exc_ne no longer matches
    match st.eval(&m_exc_ne.clone()) {
        Some(_) => panic!("unexpected match"),
        None => {}
    }

    // now let's match on foo == bar, should match committed state now
    let txn = match st.eval(&m_exc_eq.clone()) {
        Some(txn) => {
            assert_eq!(txn.seq, 1);
            txn
        }
        None => panic!("expected match"),
    };
    assert!(st.commit(txn).is_ok());
    assert!(st.storage().vars().is_empty());
    assert_eq!(st.storage().seq(), 2);
}

#[test]
fn match_is_set() {
    let m_ast = parse_one_match(SIMPLE_IS_SET);
    {
        let mut st = State::new(Storage::new());
        st.mut_storage().mut_vars().insert("foo".to_string(), Value::from_str("bar"));
        let m_exc = Match::new_from_ast(&m_ast).unwrap();
        let txn = match st.eval(&m_exc.clone()) {
            Some(txn) => {
                assert_eq!(txn.seq, 0);
                txn
            }
            None => panic!("expected match"),
        };
        assert!(st.commit(txn).is_ok());

        match st.eval(&m_exc.clone()) {
            Some(_) => panic!("unexpected match"),
            None => {}
        }
    }
    {
        let mut st = State::new(Storage::new());
        st.mut_storage().mut_vars().insert("bar".to_string(), Value::from_str("foo"));
        let m_exc = Match::new_from_ast(&m_ast).unwrap();
        match st.eval(&m_exc.clone()) {
            Some(_) => panic!("unexpected match"),
            None => {}
        }
    }
}

#[test]
fn eval_leaves_the_state_as_it_is() {
    let m_exc = Match::new_from_ast(&simple_init()).unwrap();
    let mut st = State::new(Storage::new());
    st.mut_storage().push_msg("init", obj_of("n", Value::from_int(7)));
    let first = st.eval(&m_exc).unwrap();
    let second = st.eval(&m_exc).unwrap();
    assert_eq!(first.seq, second.seq);
    assert_eq!(first.context().msgs, second.context().msgs);
    assert_eq!(st.storage().seq(), 0);
    assert_eq!(st.storage().peek_msg("init"), Some(&obj_of("n", Value::from_int(7))));
}

#[test]
fn commit_takes_one_message_from_the_head() {
    let m_exc = Match::new_from_ast(&simple_init()).unwrap();
    let mut st = State::new(Storage::new());
    st.mut_storage().push_msg("init", obj_of("n", Value::from_int(1)));
    st.mut_storage().push_msg("init", obj_of("n", Value::from_int(2)));
    let txn = st.eval(&m_exc).unwrap();
    assert!(st.commit(txn).is_ok());
    assert_eq!(st.storage().peek_msg("init"), Some(&obj_of("n", Value::from_int(2))));
    let txn = st.eval(&m_exc).unwrap();
    assert!(st.commit(txn).is_ok());
    assert_eq!(st.storage().peek_msg("init"), None);
    assert_eq!(st.storage().seq(), 2);
}

#[test]
fn acknowledge_of_a_taken_topic_takes_one_message_only() {
    let m_ast = parse_one_match("when (message job) { acknowledge job; acknowledge job; }");
    let m_exc = Match::new_from_ast(&m_ast).unwrap();
    let mut st = State::new(Storage::new());
    st.mut_storage().push_msg("job", obj_of("n", Value::from_int(1)));
    st.mut_storage().push_msg("job", obj_of("n", Value::from_int(2)));
    let txn = st.eval(&m_exc).unwrap();
    assert!(st.commit(txn).is_ok());
    assert_eq!(st.storage().peek_msg("job"), Some(&obj_of("n", Value::from_int(2))));
}

#[test]
fn acknowledge_drops_the_head_of_another_topic() {
    let m_ast = parse_one_match("when (is_set go) { acknowledge job; acknowledge none; }");
    let m_exc = Match::new_from_ast(&m_ast).unwrap();
    let mut st = State::new(Storage::new());
    st.mut_storage().mut_vars().insert("go".to_string(), Value::from_int(1));
    st.mut_storage().push_msg("job", obj_of("n", Value::from_int(1)));
    st.mut_storage().push_msg("job", obj_of("n", Value::from_int(2)));
    st.mut_storage().push_msg("other", Obj::new());
    let txn = st.eval(&m_exc).unwrap();
    assert!(txn.context().msgs.is_empty());
    assert!(st.commit(txn).is_ok());
    assert_eq!(st.storage().peek_msg("job"), Some(&obj_of("n", Value::from_int(2))));
    assert!(st.storage().peek_msg("other").is_some());
    assert_eq!(st.storage().seq(), 1);
}

#[test]
fn condition_on_a_field_of_a_taken_message() {
    let m_ast = parse_one_match("when (message job, job.kind == build, job.n != 3) { set last job; }");
    let m_exc = Match::new_from_ast(&m_ast).unwrap();
    let mut st = State::new(Storage::new());
    let mut payload = Obj::new();
    payload.insert("kind".to_string(), Value::from_str("build"));
    payload.insert("n".to_string(), Value::from_int(3));
    st.mut_storage().push_msg("job", payload);
    // n is the integer 3, and the literal of the rule is the string "3"
    let txn = st.eval(&m_exc).unwrap();
    assert!(st.commit(txn).is_ok());
    assert_eq!(st.storage().vars().get("last"), Some(&Value::from_str("job")));

    let m_ast = parse_one_match("when (job.kind == build, message job) { unset last; }");
    let m_exc = Match::new_from_ast(&m_ast).unwrap();
    let mut payload = Obj::new();
    payload.insert("kind".to_string(), Value::from_str("build"));
    st.mut_storage().push_msg("job", payload);
    // the comparison comes before the message is taken: the name leads nowhere
    assert!(st.eval(&m_exc).is_none());
}

#[test]
fn not_equal_fails_on_a_name_that_leads_nowhere() {
    let m_exc = Match::new_from_ast(&parse_one_match(SIMPLE_NOT_EQUAL)).unwrap();
    let st = State::new(Storage::new());
    assert!(st.eval(&m_exc).is_none());
}

#[test]
fn two_message_conditions_on_one_topic_are_refused() {
    let m_ast = parse_one_match("when (message a, is_set x, message a) { unset x; }");
    match Match::new_from_ast(&m_ast) {
        Err(Error::Parse(_)) => {}
        _ => panic!("expected the rule to be refused"),
    }
}

#[test]
fn exec_action_is_refused() {
    let m_ast = parse_one_match("when (is_set x) { exec something; }");
    match Match::new_from_ast(&m_ast) {
        Err(Error::Parse(_)) => {}
        _ => panic!("expected the rule to be refused"),
    }
}

#[test]
fn storage_queues_are_first_in_first_out() {
    let mut storage = Storage::new();
    assert_eq!(storage.pop_msg("t"), None);
    storage.push_msg("t", obj_of("n", Value::from_int(1)));
    storage.push_msg("u", obj_of("n", Value::from_int(9)));
    storage.push_msg("t", obj_of("n", Value::from_int(2)));
    assert_eq!(storage.peek_msg("t"), Some(&obj_of("n", Value::from_int(1))));
    assert_eq!(storage.pop_msg("t"), Some(obj_of("n", Value::from_int(1))));
    assert_eq!(storage.pop_msg("t"), Some(obj_of("n", Value::from_int(2))));
    assert_eq!(storage.pop_msg("t"), None);
    assert_eq!(storage.pop_msg("u"), Some(obj_of("n", Value::from_int(9))));
    assert_eq!(storage.seq(), 0);
}

#[test]
fn errors_carry_their_text() {
    assert_eq!(Error::Parse("bad text".to_string()).message(), "bad text");
    assert_eq!(Error::IO("no such file".to_string()).message(), "no such file");
    assert_eq!(Error::Exec(2, "oops\n".to_string()).message(), "oops\n");
    assert_eq!(Error::Runtime("broken".to_string()).message(), "broken");
    match Error::Exec(7, "out".to_string()).clone() {
        Error::Exec(code, stderr) => {
            assert_eq!(code, 7);
            assert_eq!(stderr, "out");
        }
        _ => panic!("expected a copy of the same kind"),
    }
    match Error::IO("gone".to_string()).clone() {
        Error::IO(text) => assert_eq!(text, "gone"),
        _ => panic!("expected a copy of the same kind"),
    }
}

#[test]
fn commit_of_a_stale_count_is_still_one_more() {
    let m_exc = Match::new_from_ast(&parse_one_match("when (message a) { set x y; }")).unwrap();
    let mut st = State::new(Storage::new());
    st.mut_storage().push_msg("a", Obj::new());
    st.mut_storage().push_msg("a", Obj::new());
    let first = st.eval(&m_exc).unwrap();
    let second = st.eval(&m_exc).unwrap();
    assert!(st.commit(first).is_ok());
    assert!(st.commit(second).is_ok());
    assert_eq!(st.storage().seq(), 2);
    assert!(st.storage().peek_msg("a").is_none());
}
