use glop::ast;
use glop::grammar;
use glop::runtime::{Error, Match, ScriptRequest, ScriptResponse, State, Step, Storage};
use glop::value::{Obj, Value};

const SIMPLE_SCRIPT_OK: &'static str = r###"
when (message init) {
    script #!/bin/bash
set -ex
echo "hello world"
!#
}
"###;
const SIMPLE_SCRIPT_ERR: &'static str = r###"
when (message init) {
    script #!/bin/bash
>&2 echo "crash and burn"
exit 1
!#
}
"###;
const ENV_CHECK_SCRIPT: &'static str = r###"
when (message test) {
    set foo bar;
    script #!/bin/bash
env
[ "${test__content}" == "hello world" ]
!#
}
"###;
const HELLO_SCRIPT_SERVER: &'static str = r###"
when (message init) {
    set foo bar;
    script #!/bin/bash
set -e
[ -n "$ADDR" ]
PORT=$(echo ${ADDR} | sed 's/.*://')

# glop getvar foo
FOO=$(nc 127.0.0.1 ${PORT} <<EOF
{"GetVar":{"key":"foo"}}
EOF)
echo ${FOO}
FOO=$(echo ${FOO} | jq -r '.GetVar.value')

# glop setvar foo hello
nc 127.0.0.1 ${PORT} <<EOF
{"SetVar":{"key":"foo","value":"hello-${FOO}"}}
EOF

!#
}
"###;
const SCRIPT_SERVER_ACCESS_MSG: &'static str = r###"
when (message init) {
    script #!/bin/bash
set -e
[ -n "$ADDR" ]
PORT=$(echo ${ADDR} | sed 's/.*://')

# glop getmsg init foo
FOO=$(nc 127.0.0.1 ${PORT} <<EOF
{"GetMsg":{"topic":"init","key":"foo"}}
EOF)
[ "$(echo ${FOO} | jq -r '.GetMsg.value')" = "bar" ]

# glop setvar all good
nc 127.0.0.1 ${PORT} <<EOF
{"SetVar":{"key":"all","value":"good"}}
EOF
!#
}
"###;

fn parse_one_script_match(s: &str) -> ast::Match {
    let mut g = grammar::glop(s).unwrap();
    assert_eq!(g.matches.len(), 1);
    g.matches.pop().unwrap()
}

fn obj_with(key: &str, value: Value) -> Obj {
    let mut o = Obj::new();
    o.insert(key.to_string(), value);
    o
}

// No process is started here: each test plays the part of the script's
// runner. It takes the script that the transaction asks for, sends what the
// script would send, and reports how the script would end.

#[test]
fn simple_script() {
    let m_ast = parse_one_script_match(SIMPLE_SCRIPT_OK);
    let mut st = State::new(Storage::new());
    st.mut_storage().push_msg("init", Obj::new());
    let m_exc = Match::new_from_ast(&m_ast).unwrap();
    let mut txn = match st.eval(&m_exc.clone()) {
        Some(txn) => {
            assert_eq!(txn.seq, 0);
            let ctx = txn.context();
            assert!(ctx.msgs.contains_key("init"));
            assert_eq!(ctx.msgs.len(), 1);
            txn
        }
        None => panic!("expected match"),
    };
    match txn.apply() {
        Step::Script(shebang, body) => {
            assert_eq!(shebang, "#!/bin/bash");
            assert_eq!(body, "set -ex\necho \"hello world\"\n");
        }
        _ => panic!("expected a script to run"),
    }
    assert!(txn.script_exited(0, String::new()).is_ok());
    assert!(st.commit(txn).is_ok());
    assert_eq!(st.storage().seq(), 1);
    assert!(st.storage().peek_msg("init").is_none());
}

#[test]
fn simple_script_err() {
    let m_ast = parse_one_script_match(SIMPLE_SCRIPT_ERR);
    let mut st = State::new(Storage::new());
    st.mut_storage().push_msg("init", Obj::new());
    let m_exc = Match::new_from_ast(&m_ast).unwrap();
    let mut txn = match st.eval(&m_exc.clone()) {
        Some(txn) => {
            assert_eq!(txn.seq, 0);
            let ctx = txn.context();
            assert!(ctx.msgs.contains_key("init"));
            assert_eq!(ctx.msgs.len(), 1);
            txn
        }
        None => panic!("expected match"),
    };
    match txn.apply() {
        Step::Script(_, body) => assert_eq!(body, ">&2 echo \"crash and burn\"\nexit 1\n"),
        _ => panic!("expected a script to run"),
    }
    assert!(txn.script_exited(1, "crash and burn\n".to_string()).is_err());
    match st.commit(txn) {
        Ok(_) => panic!("expected script to error"),
        Err(e) => match e {
            Error::Exec(rc, ref stderr) => {
                assert_eq!(rc, 1);
                assert_eq!(stderr, "crash and burn\n");
            }
            _ => {
                panic!("unexpected error: {}", e.message());
            }
        },
    }
    assert_eq!(st.storage().seq(), 0);
    assert!(st.storage().vars().is_empty());
    assert_eq!(st.storage().peek_msg("init"), Some(&Obj::new()));
}

#[test]
fn env_check_script_ok() {
    let m_ast = parse_one_script_match(ENV_CHECK_SCRIPT);
    let mut st = State::new(Storage::new());
    st.mut_storage().push_msg("test", obj_with("content", Value::from_str("hello world")));
    let m_exc = Match::new_from_ast(&m_ast).unwrap();
    let mut txn = match st.eval(&m_exc.clone()) {
        Some(txn) => {
            assert_eq!(txn.seq, 0);
            let ctx = txn.context();
            assert!(ctx.msgs.contains_key("test"));
            assert_eq!(ctx.msgs.len(), 1);
            txn
        }
        None => panic!("expected match"),
    };
    match txn.apply() {
        Step::Script(_, _) => {}
        _ => panic!("expected a script to run"),
    }
    let env = txn.context().env();
    assert!(env.contains(&("test__content".to_string(), "hello world".to_string())));
    assert!(env.contains(&("foo".to_string(), "bar".to_string())));
    assert_eq!(env.len(), 2);
    assert!(txn.script_exited(0, String::new()).is_ok());
    assert!(st.commit(txn).is_ok());
}

#[test]
fn hello_script_server() {
    let m_ast = parse_one_script_match(HELLO_SCRIPT_SERVER);
    let mut st = State::new(Storage::new());
    st.mut_storage().push_msg("init", Obj::new());
    let m_exc = Match::new_from_ast(&m_ast).unwrap();
    let mut txn = match st.eval(&m_exc.clone()) {
        Some(txn) => {
            assert_eq!(txn.seq, 0);
            let ctx = txn.context();
            assert!(ctx.msgs.contains_key("init"));
            assert_eq!(ctx.msgs.len(), 1);
            txn
        }
        None => panic!("expected match"),
    };
    match txn.apply() {
        Step::Script(_, _) => {}
        _ => panic!("expected a script to run"),
    }
    let foo = match txn.context_mut().serve(&ScriptRequest::GetVar { key: "foo".to_string() }) {
        ScriptResponse::GetVar { value: Some(Value::Str(foo)) } => foo,
        _ => panic!("expected the variable foo"),
    };
    assert_eq!(foo, "bar");
    match txn.context_mut().serve(&ScriptRequest::SetVar {
        key: "foo".to_string(),
        value: format!("hello-{}", foo),
    }) {
        ScriptResponse::SetVar => {}
        _ => panic!("expected the answer to SetVar"),
    }
    // the committed state does not see the script's work before the commit
    assert!(st.storage().vars().is_empty());
    assert!(txn.script_exited(0, String::new()).is_ok());
    assert!(st.commit(txn).is_ok());
    assert_eq!(st.storage().vars().get("foo"), Some(&Value::from_str("hello-bar")));
}

#[test]
fn script_server_access_msg() {
    let m_ast = parse_one_script_match(SCRIPT_SERVER_ACCESS_MSG);
    let mut st = State::new(Storage::new());
    st.mut_storage().push_msg("init", obj_with("foo", Value::Str("bar".to_string())));
    let m_exc = Match::new_from_ast(&m_ast).unwrap();
    let mut txn = match st.eval(&m_exc.clone()) {
        Some(txn) => txn,
        None => panic!("expected match"),
    };
    match txn.apply() {
        Step::Script(_, _) => {}
        _ => panic!("expected a script to run"),
    }
    match txn.context_mut().serve(&ScriptRequest::GetMsg {
        topic: "init".to_string(),
        key: "foo".to_string(),
    }) {
        ScriptResponse::GetMsg { value } => assert_eq!(value, Some(Value::from_str("bar"))),
        _ => panic!("expected the answer to GetMsg"),
    }
    match txn.context_mut().serve(&ScriptRequest::SetVar {
        key: "all".to_string(),
        value: "good".to_string(),
    }) {
        ScriptResponse::SetVar => {}
        _ => panic!("expected the answer to SetVar"),
    }
    assert!(txn.script_exited(0, String::new()).is_ok());
    assert!(st.commit(txn).is_ok());
    assert_eq!(st.storage().vars().get("all"), Some(&Value::from_str("good")));
}

#[test]
fn commit_before_the_script_has_run_is_refused() {
    let m_exc = Match::new_from_ast(&parse_one_script_match(SIMPLE_SCRIPT_OK)).unwrap();
    let mut st = State::new(Storage::new());
    st.mut_storage().push_msg("init", Obj::new());
    let txn = st.eval(&m_exc).unwrap();
    match st.commit(txn) {
        Err(Error::Runtime(_)) => {}
        _ => panic!("expected the commit to be refused"),
    }
    assert_eq!(st.storage().seq(), 0);
    assert!(st.storage().peek_msg("init").is_some());
}

#[test]
fn script_end_without_a_script_is_refused() {
    let m_ast = parse_one_script_match("when (message init) { set a b; }");
    let m_exc = Match::new_from_ast(&m_ast).unwrap();
    let mut st = State::new(Storage::new());
    st.mut_storage().push_msg("init", Obj::new());
    let mut txn = st.eval(&m_exc).unwrap();
    match txn.script_exited(0, String::new()) {
        Err(Error::Runtime(_)) => {}
        _ => panic!("expected the report to be refused"),
    }
    match txn.apply() {
        Step::Finished => {}
        _ => panic!("expected the transaction to finish"),
    }
    assert!(txn.consumes("init"));
    assert!(!txn.consumes("other"));
    assert!(st.commit(txn).is_ok());
    assert_eq!(st.storage().vars().get("a"), Some(&Value::from_str("b")));
}

#[test]
fn actions_after_a_script_run_when_it_has_ended() {
    let src = "when (message init) { set a 1; script #!/bin/sh\ntrue\n!# set b 2; script #!/bin/sh\nfalse\n!# set c 3; }";
    let m_exc = Match::new_from_ast(&parse_one_script_match(src)).unwrap();
    let mut st = State::new(Storage::new());
    st.mut_storage().push_msg("init", Obj::new());
    let mut txn = st.eval(&m_exc).unwrap();
    match txn.apply() {
        Step::Script(shebang, body) => {
            assert_eq!(shebang, "#!/bin/sh");
            assert_eq!(body, "true\n");
        }
        _ => panic!("expected the first script"),
    }
    assert_eq!(txn.context().vars.get("a"), Some(&Value::from_str("1")));
    assert_eq!(txn.context().vars.get("b"), None);
    assert!(txn.script_exited(0, String::new()).is_ok());
    match txn.apply() {
        Step::Script(_, body) => assert_eq!(body, "false\n"),
        _ => panic!("expected the second script"),
    }
    assert_eq!(txn.context().vars.get("b"), Some(&Value::from_str("2")));
    match txn.script_exited(3, "no".to_string()) {
        Err(Error::Exec(3, stderr)) => assert_eq!(stderr, "no"),
        _ => panic!("expected the script's failure"),
    }
    match txn.apply() {
        Step::Failed(code, stderr) => {
            assert_eq!(code, 3);
            assert_eq!(stderr, "no");
        }
        _ => panic!("expected the transaction to have failed"),
    }
    assert!(st.commit(txn).is_err());
    assert!(st.storage().vars().is_empty());
    assert_eq!(st.storage().seq(), 0);
}

#[test]
fn env_exports_scalars_only() {
    let m_ast = parse_one_script_match("when (message job) { script #!/bin/sh\ntrue\n!# }");
    let m_exc = Match::new_from_ast(&m_ast).unwrap();
    let mut st = State::new(Storage::new());
    st.mut_storage().mut_vars().insert("count".to_string(), Value::from_int(-12));
    st.mut_storage().mut_vars().insert("zero".to_string(), Value::from_int(0));
    st.mut_storage().mut_vars().insert("least".to_string(), Value::from_int(i32::MIN));
    st.mut_storage()
        .mut_vars()
        .insert("nested".to_string(), Value::from_obj(obj_with("x", Value::from_int(1))));
    let mut payload = Obj::new();
    payload.insert("id".to_string(), Value::from_int(40));
    payload.insert("who".to_string(), Value::from_obj(obj_with("name", Value::from_str("ann"))));
    st.mut_storage().push_msg("job", payload);
    let txn = st.eval(&m_exc).unwrap();
    let mut env = txn.context().env();
    env.sort();
    assert_eq!(
        env,
        vec![
            ("count".to_string(), "-12".to_string()),
            ("job__id".to_string(), "40".to_string()),
            ("job__who__name".to_string(), "ann".to_string()),
            ("least".to_string(), "-2147483648".to_string()),
            ("zero".to_string(), "0".to_string()),
        ]
    );
}

#[test]
fn requests_with_dotted_keys() {
    let m_ast = parse_one_script_match("when (message job) { script #!/bin/sh\ntrue\n!# }");
    let m_exc = Match::new_from_ast(&m_ast).unwrap();
    let mut st = State::new(Storage::new());
    let mut payload = Obj::new();
    payload.insert("who".to_string(), Value::from_obj(obj_with("name", Value::from_str("ann"))));
    st.mut_storage().push_msg("job", payload);
    let mut txn = st.eval(&m_exc).unwrap();
    let ctx = txn.context_mut();
    match ctx.serve(&ScriptRequest::GetMsg { topic: "job".to_string(), key: "who.name".to_string() })
    {
        ScriptResponse::GetMsg { value } => assert_eq!(value, Some(Value::from_str("ann"))),
        _ => panic!("expected the answer to GetMsg"),
    }
    // an object is no scalar field, and a missing topic or field gives nothing
    match ctx.serve(&ScriptRequest::GetMsg { topic: "job".to_string(), key: "who".to_string() }) {
        ScriptResponse::GetMsg { value } => assert_eq!(value, None),
        _ => panic!("expected the answer to GetMsg"),
    }
    match ctx.serve(&ScriptRequest::GetMsg { topic: "none".to_string(), key: "who".to_string() }) {
        ScriptResponse::GetMsg { value } => assert_eq!(value, None),
        _ => panic!("expected the answer to GetMsg"),
    }
    match ctx.serve(&ScriptRequest::GetVar { key: "a.b".to_string() }) {
        ScriptResponse::GetVar { value } => assert_eq!(value, None),
        _ => panic!("expected the answer to GetVar"),
    }
    match ctx.serve(&ScriptRequest::SetVar { key: "a.b".to_string(), value: "c".to_string() }) {
        ScriptResponse::SetVar => {}
        _ => panic!("expected the answer to SetVar"),
    }
    match ctx.serve(&ScriptRequest::GetVar { key: "a.b".to_string() }) {
        ScriptResponse::GetVar { value } => assert_eq!(value, Some(Value::from_str("c"))),
        _ => panic!("expected the answer to GetVar"),
    }
    match ctx.serve(&ScriptRequest::GetVar { key: "a".to_string() }) {
        ScriptResponse::GetVar { value } => {
            assert_eq!(value, Some(Value::from_obj(obj_with("b", Value::from_str("c")))))
        }
        _ => panic!("expected the answer to GetVar"),
    }
}
