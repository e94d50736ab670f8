use shellsense::daemon::{
    plan_request, retry_delays_ms, suggestion_response, Action, Request, Response,
};

#[test]
fn ping_and_shutdown_plans() {
    assert!(matches!(plan_request(Request::Ping), Action::Reply(Response::Pong)));
    assert!(matches!(plan_request(Request::Shutdown), Action::Shutdown));
}

#[test]
fn suggest_plan_defaults() {
    let req = Request::Suggest {
        prefix: Some("git".to_string()),
        prev: None,
        prev2: None,
        dir: None,
        env: None,
        count: None,
        plain: None,
    };
    match plan_request(req) {
        Action::Suggest { prefix, limit, plain, .. } => {
            assert_eq!(prefix.as_deref(), Some("git"));
            assert_eq!(limit, 5);
            assert!(!plain);
        }
        other => panic!("unexpected {:?}", other),
    }
}

#[test]
fn add_plan_keeps_fields() {
    let req = Request::Add {
        cmd: "git status".to_string(),
        dir: Some("/project".to_string()),
        git: None,
        exit: Some(0),
        session: None,
        prev: Some("ls".to_string()),
        prev2: None,
        timestamp: 1700000000,
        hour: 14,
    };
    match plan_request(req) {
        Action::Record { cmd, dir, exit, hour, timestamp, .. } => {
            assert_eq!(cmd, "git status");
            assert_eq!(dir.as_deref(), Some("/project"));
            assert_eq!(exit, Some(0));
            assert_eq!(hour, 14);
            assert_eq!(timestamp, 1700000000);
        }
        other => panic!("unexpected {:?}", other),
    }
}

#[test]
fn responses_truncate_and_join() {
    let cmds = vec!["a".to_string(), "b".to_string(), "c".to_string()];
    match suggestion_response(cmds.clone(), 2, true) {
        Response::PlainText(t) => assert_eq!(t, "a\nb"),
        other => panic!("unexpected {:?}", other),
    }
    match suggestion_response(cmds.clone(), 9, false) {
        Response::Suggestions(v) => assert_eq!(v, cmds),
        other => panic!("unexpected {:?}", other),
    }
    match suggestion_response(Vec::new(), 3, true) {
        Response::PlainText(t) => assert_eq!(t, ""),
        other => panic!("unexpected {:?}", other),
    }
}

#[test]
fn retry_delays_double_from_twenty() {
    assert_eq!(retry_delays_ms(), vec![20, 40, 80, 160]);
    assert_eq!(retry_delays_ms().iter().sum::<u64>(), 300);
}
