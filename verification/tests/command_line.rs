use ucp::cli::{connect_line, is_server_invocation, local_address_text, next_bind_step, plan_client,
    server_job, split_char, count_occurrences, BindStep, PlanError, END_PORT, FIRST_PORT};
use ucp::crypto::{Key, Nonce};

fn args(v: &[&str]) -> Vec<String> {
    v.iter().map(|s| s.to_string()).collect()
}

#[test]
fn receiving_from_a_remote_source() {
    let p = plan_client(&args(&["robin@files.example:everything", "/tmp"])).unwrap();
    assert_eq!(p.host, "robin@files.example");
    assert_eq!(p.remote_file, "everything");
    assert_eq!(p.local_file, "/tmp");
    assert!(p.is_recv);
}

#[test]
fn sending_to_a_remote_destination() {
    let p = plan_client(&args(&["insurance.aes256", "robin@files.example:"])).unwrap();
    assert_eq!(p.host, "robin@files.example");
    assert_eq!(p.local_file, "");
    assert_eq!(p.remote_file, "insurance.aes256");
    assert!(!p.is_recv);
}

#[test]
fn a_second_colon_cuts_the_file_name() {
    let p = plan_client(&args(&["h:f:x", "local"])).unwrap();
    assert_eq!(p.host, "h");
    assert_eq!(p.remote_file, "f");
}

#[test]
fn plan_errors() {
    assert!(matches!(plan_client(&args(&["a"])), Err(PlanError::WrongArgCount)));
    assert!(matches!(plan_client(&args(&["a", "b", "c"])), Err(PlanError::WrongArgCount)));
    match plan_client(&args(&["a:b:c:d", "x:y:z:w"])) {
        Err(PlanError::InvalidIdentifier(s)) => assert_eq!(s, "a:b:c:d"),
        _ => panic!("expected an invalid identifier"),
    }
    match plan_client(&args(&["local", "x:y:z:w"])) {
        Err(PlanError::InvalidIdentifier(s)) => assert_eq!(s, "x:y:z:w"),
        _ => panic!("expected an invalid identifier"),
    }
    assert!(matches!(plan_client(&args(&["a:b", "c:d"])), Err(PlanError::BothRemote)));
    assert!(matches!(plan_client(&args(&["a", "b"])), Err(PlanError::NeitherRemote)));
}

#[test]
fn splitting_matches_std() {
    for s in ["", "a", "a b", "a  b ", " x y z ", "é:ü"] {
        let ours = split_char(s, ' ');
        let std: Vec<String> = s.split(' ').map(|p| p.to_string()).collect();
        assert_eq!(ours, std);
        assert_eq!(count_occurrences(s, ' '), s.matches(' ').count());
    }
}

#[test]
fn server_mode_detection() {
    assert!(is_server_invocation(&args(&["ucp", "server", "-f", "x"])));
    assert!(!is_server_invocation(&args(&["ucp"])));
    assert!(!is_server_invocation(&args(&["ucp", "servers"])));
}

#[test]
fn server_job_needs_exactly_one_direction() {
    assert_eq!(server_job(Some("a".to_string()), None), Ok(("a".to_string(), false)));
    assert_eq!(server_job(None, Some("b".to_string())), Ok(("b".to_string(), true)));
    let msg = "Must be either 'from' or 'to', but not both".to_string();
    assert_eq!(server_job(None, None), Err(msg.clone()));
    assert_eq!(server_job(Some("a".to_string()), Some("b".to_string())), Err(msg));
}

#[test]
fn local_address_from_ssh_connection() {
    assert_eq!(local_address_text(None), Ok("127.0.0.1".to_string()));
    assert_eq!(
        local_address_text(Some("10.0.0.1 52000 10.0.0.2 22".to_string())),
        Ok("10.0.0.2".to_string())
    );
    assert_eq!(local_address_text(Some("a  b".to_string())), Ok("b".to_string()));
    assert_eq!(
        local_address_text(Some("10.0.0.1 52000".to_string())),
        Err("Failed to parse $SSH_CONNECTION: 10.0.0.1 52000".to_string())
    );
}

#[test]
fn port_search() {
    assert!(matches!(next_bind_step(FIRST_PORT, Ok(())), BindStep::Bound(61000)));
    assert!(matches!(next_bind_step(FIRST_PORT, Err((1003, "taken".to_string()))), BindStep::TryPort(61001)));
    assert!(matches!(next_bind_step(END_PORT - 1, Err((1003, "taken".to_string()))), BindStep::Exhausted));
    match next_bind_step(61005, Err((5, "bad".to_string()))) {
        BindStep::Fail(m) => assert_eq!(m, "Error binding 61005: 5:  bad"),
        _ => panic!("expected a failure"),
    }
    match next_bind_step(61000, Err((-1, "x".to_string()))) {
        BindStep::Fail(m) => assert_eq!(m, "Error binding 61000: -1:  x"),
        _ => panic!("expected a failure"),
    }
    match next_bind_step(61000, Err((i32::MIN, "x".to_string()))) {
        BindStep::Fail(m) => assert_eq!(m, format!("Error binding 61000: {}:  x", i32::MIN)),
        _ => panic!("expected a failure"),
    }
}

#[test]
fn connect_line_names_address_port_key_and_nonces() {
    let line = connect_line("10.0.0.2", 61003, &Key([0; 32]), &Nonce([0; 24]), &Nonce([0; 24]));
    let expected = format!(
        "UCP CONNECT 10.0.0.2 61003 {}= {} {}",
        "A".repeat(43),
        "A".repeat(32),
        "A".repeat(32)
    );
    assert_eq!(line, expected);
}
