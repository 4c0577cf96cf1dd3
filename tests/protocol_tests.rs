use loki_control::broker::{accept_line, BrokerStep};
use loki_control::protocol::{
    encode_request, encode_response, parse_error_response, run_response, write_response,
    Request, Response, RunOutcome,
};

#[test]
fn success_line() {
    assert_eq!(encode_response(&Response::ok()), "{\"success\":true,\"error\":null}\n");
}

#[test]
fn write_to_missing_directory_reports_os_error() {
    let os_text = "No such file or directory (os error 2)".to_string();
    let r = write_response(Err(os_text));
    assert!(!r.success);
    assert_eq!(
        encode_response(&r),
        "{\"success\":false,\"error\":\"No such file or directory (os error 2)\"}\n"
    );
}

#[test]
fn write_success() {
    let r = write_response(Ok(()));
    assert!(r.success);
    assert_eq!(r.error, None);
}

#[test]
fn run_false_reports_exit_status() {
    let r = run_response(RunOutcome::Exited { code: 1 });
    assert_eq!(encode_response(&r), "{\"success\":false,\"error\":\"exit status: 1\"}\n");
    let r = run_response(RunOutcome::Exited { code: -3 });
    assert_eq!(r.error.as_deref(), Some("exit status: -3"));
    let r = run_response(RunOutcome::Exited { code: 255 });
    assert_eq!(r.error.as_deref(), Some("exit status: 255"));
}

#[test]
fn run_true_succeeds() {
    let r = run_response(RunOutcome::Exited { code: 0 });
    assert_eq!(encode_response(&r), "{\"success\":true,\"error\":null}\n");
}

#[test]
fn run_spawn_failure_and_signal() {
    let r = run_response(RunOutcome::SpawnFailed {
        error: "No such file or directory (os error 2)".to_string(),
    });
    assert_eq!(r.error.as_deref(), Some("No such file or directory (os error 2)"));
    let r = run_response(RunOutcome::Terminated { status: "signal: 9 (SIGKILL)".to_string() });
    assert_eq!(r.error.as_deref(), Some("exit status: signal: 9 (SIGKILL)"));
}

#[test]
fn malformed_line_gets_parse_error() {
    let msg = serde_json::from_str::<serde_json::Value>("not json").unwrap_err().to_string();
    match accept_line(Err(msg.clone())) {
        BrokerStep::Reply(r) => {
            let line = encode_response(&r);
            assert!(line.starts_with("{\"success\":false,\"error\":\"parse error: "));
            assert_eq!(r.error, Some(format!("parse error: {}", msg)));
        }
        BrokerStep::Execute(_) => panic!("a malformed line must not be executed"),
    }
    assert_eq!(parse_error_response("x").error.as_deref(), Some("parse error: x"));
}

#[test]
fn valid_line_is_executed() {
    let req = Request::Run { program: "true".to_string(), args: vec![] };
    match accept_line(Ok(req)) {
        BrokerStep::Execute(Request::Run { program, args }) => {
            assert_eq!(program, "true");
            assert!(args.is_empty());
        }
        _ => panic!("a request must be executed"),
    }
}

#[test]
fn error_text_is_escaped() {
    let r = Response::failure("a \"quoted\" \\ path\nnext".to_string());
    let line = encode_response(&r);
    assert_eq!(line, "{\"success\":false,\"error\":\"a \\\"quoted\\\" \\\\ path\\nnext\"}\n");
    let v: serde_json::Value = serde_json::from_str(line.trim_end()).unwrap();
    assert_eq!(v["error"], "a \"quoted\" \\ path\nnext");
}

#[test]
fn write_request_line() {
    let req = Request::Write { path: "/sys/x/pwm1".to_string(), value: "128".to_string() };
    assert_eq!(
        encode_request(&req),
        "{\"cmd\":\"write\",\"path\":\"/sys/x/pwm1\",\"value\":\"128\"}\n"
    );
}

#[test]
fn run_request_line() {
    let req = Request::Run {
        program: "rfkill".to_string(),
        args: vec!["toggle".to_string(), "wi\"fi".to_string()],
    };
    let line = encode_request(&req);
    assert_eq!(line, "{\"cmd\":\"run\",\"program\":\"rfkill\",\"args\":[\"toggle\",\"wi\\\"fi\"]}\n");
    let v: serde_json::Value = serde_json::from_str(&line).unwrap();
    assert_eq!(v["args"][1], "wi\"fi");
    let empty = Request::Run { program: "true".to_string(), args: vec![] };
    assert_eq!(encode_request(&empty), "{\"cmd\":\"run\",\"program\":\"true\",\"args\":[]}\n");
}

#[test]
fn two_connections_get_their_own_responses() {
    let a = accept_line(Ok(Request::Run { program: "true".to_string(), args: vec![] }));
    let b = accept_line(Err("expected value at line 1 column 1".to_string()));
    let ra = match a {
        BrokerStep::Execute(_) => run_response(RunOutcome::Exited { code: 0 }),
        BrokerStep::Reply(r) => r,
    };
    let rb = match b {
        BrokerStep::Execute(_) => panic!("not a request"),
        BrokerStep::Reply(r) => r,
    };
    assert_eq!(encode_response(&ra), "{\"success\":true,\"error\":null}\n");
    assert_eq!(
        encode_response(&rb),
        "{\"success\":false,\"error\":\"parse error: expected value at line 1 column 1\"}\n"
    );
}

#[test]
fn control_characters_are_escaped_in_hex() {
    let r = Response::failure("a\u{1}b\u{1f}c\u{7f}\u{8}\t\r\u{c}é".to_string());
    assert_eq!(
        encode_response(&r),
        "{\"success\":false,\"error\":\"a\\u0001b\\u001fc\u{7f}\\b\\t\\r\\fé\"}\n"
    );
}

#[test]
fn lines_hold_one_line_feed() {
    let req = Request::Write { path: "/a\nb".to_string(), value: "x\ny\n".to_string() };
    let line = encode_request(&req);
    assert_eq!(line.matches('\n').count(), 1);
    assert!(line.ends_with('\n'));
    let r = Response::failure("one\ntwo".to_string());
    assert_eq!(encode_response(&r).matches('\n').count(), 1);
}
