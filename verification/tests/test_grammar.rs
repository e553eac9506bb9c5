use glop::ast;
use glop::grammar;

#[test]
fn round_trip_simple() {
    let src = r#"when (message init) {
    set installed false;
    set initialized true;
    acknowledge init;
}

when (installed == false, initialized == true) {
    exec install-things.bash;
    script #!/bin/bash
set -ex
echo "hello world"
!#
    set installed true;
}

when (message config, is_set initialized) {
    acknowledge config;
}

when (message foo, initialized != baz) {
    acknowledge foo;
    set has_foo true;
    unset bar;
}

"#;
    let g = grammar::glop(src).unwrap();
    assert_eq!(g.to_string(), src);
}

#[test]
fn err_empty() {
    assert!(grammar::glop("").is_err());
}

#[test]
fn err_empty_conditions() {
    assert!(grammar::glop(r#"when () { set foo bar; }"#).is_err());
}

#[test]
fn err_empty_actions() {
    assert!(grammar::glop(r#"when (foo == "bar") { }"#).is_err());
    assert!(grammar::glop(r#"when (foo == "bar")"#).is_err());
}

#[test]
fn err_empty_actions_bare_literal() {
    assert!(grammar::glop("when (foo == bar) { }").is_err());
    assert!(grammar::glop("when (message init) { }").is_err());
    assert!(grammar::glop("when (message init) { unset foo; }").is_ok());
}

#[test]
fn err_only_white_space() {
    assert!(grammar::glop(" \n\t ").is_err());
}

#[test]
fn parses_each_kind_of_condition() {
    let g = grammar::glop("when (message init, is_set a.b, x == 1, y != two) { unset x; }").unwrap();
    assert_eq!(g.matches.len(), 1);
    let conditions = &g.matches[0].conditions;
    assert_eq!(conditions.len(), 4);
    match &conditions[0] {
        ast::Condition::Message(topic) => assert_eq!(topic, "init"),
        _ => panic!("expected a message condition"),
    }
    match &conditions[1] {
        ast::Condition::IsSet(id) => assert_eq!(id, &vec!["a".to_string(), "b".to_string()]),
        _ => panic!("expected an is_set condition"),
    }
    match &conditions[2] {
        ast::Condition::Cmp(id, op, rhs) => {
            assert_eq!(id, &vec!["x".to_string()]);
            assert_eq!(*op, ast::CmpOpcode::Eq);
            assert_eq!(rhs, "1");
        }
        _ => panic!("expected a comparison"),
    }
    match &conditions[3] {
        ast::Condition::Cmp(id, op, rhs) => {
            assert_eq!(id, &vec!["y".to_string()]);
            assert_eq!(*op, ast::CmpOpcode::NotEq);
            assert_eq!(rhs, "two");
        }
        _ => panic!("expected a comparison"),
    }
}

#[test]
fn parses_each_kind_of_action() {
    let src = "when (is_set go) {\n set a.b c;\n unset a.b ;\n acknowledge t;\n exec run me now;\n script #!/bin/sh\necho hi\n!#\n}\n";
    let g = grammar::glop(src).unwrap();
    let actions = &g.matches[0].actions;
    assert_eq!(actions.len(), 5);
    match &actions[0] {
        ast::Action::SetVar(id, value) => {
            assert_eq!(id, &vec!["a".to_string(), "b".to_string()]);
            assert_eq!(value, "c");
        }
        _ => panic!("expected set"),
    }
    match &actions[1] {
        ast::Action::UnsetVar(id) => assert_eq!(id, &vec!["a".to_string(), "b".to_string()]),
        _ => panic!("expected unset"),
    }
    match &actions[2] {
        ast::Action::Acknowledge(topic) => assert_eq!(topic, "t"),
        _ => panic!("expected acknowledge"),
    }
    match &actions[3] {
        ast::Action::Exec(command) => assert_eq!(command, "run me now"),
        _ => panic!("expected exec"),
    }
    match &actions[4] {
        ast::Action::Script(text) => assert_eq!(text, "#!/bin/sh\necho hi\n"),
        _ => panic!("expected script"),
    }
}

#[test]
fn err_malformed_rules() {
    assert!(grammar::glop("when (a == b) { set a; }").is_err());
    assert!(grammar::glop("when (a == b) { unset a }").is_err());
    assert!(grammar::glop("when (a..b == c) { unset a; }").is_err());
    assert!(grammar::glop("when (a == b,) { unset a; }").is_err());
    assert!(grammar::glop("when (a == b) { script #!/bin/sh\necho never ends }").is_err());
    assert!(grammar::glop("when (a == b) { script echo hi !# }").is_err());
    assert!(grammar::glop("when (a == b) { unset a; } trailing").is_err());
    assert!(grammar::glop("whenever (a == b) { unset a; }").is_err());
    assert!(grammar::glop("when (message a.b) { unset a; }").is_err());
}

#[test]
fn text_of_a_program_built_by_hand() {
    let g = ast::Glop {
        matches: vec![ast::Match {
            conditions: vec![
                ast::Condition::Message("init".to_string()),
                ast::Condition::Cmp(
                    vec!["a".to_string(), "b".to_string()],
                    ast::CmpOpcode::NotEq,
                    "c".to_string(),
                ),
            ],
            actions: vec![ast::Action::UnsetVar(vec!["x".to_string()])],
        }],
    };
    let text = g.to_string();
    assert_eq!(text, "when (message init, a.b != c) {\n    unset x;\n}\n\n");
    let again = grammar::glop(&text).unwrap();
    assert_eq!(again.to_string(), text);
}
