use steam_login::handler::handle_request;
use steam_login::session::{cancel_plan, start_plan, Command, LoopAction, LoopEvent, SessionLoop};

#[test]
fn start_while_active_tears_down_first() {
    assert_eq!(
        start_plan(true),
        vec![Command::SignalCancel, Command::AwaitTask, Command::BindListener]
    );
    assert_eq!(start_plan(false), vec![Command::BindListener]);
}

#[test]
fn cancel_when_idle_does_nothing() {
    assert!(cancel_plan(false).is_empty());
    assert_eq!(cancel_plan(true), vec![Command::SignalCancel, Command::AwaitTask]);
}

#[test]
fn timeout_cancels_without_capture() {
    let mut s = SessionLoop::new();
    assert!(matches!(s.step(LoopEvent::TimedOut), LoopAction::CancelAndExit));
    assert!(s.cancelled);
    assert!(!s.delivered);
    let late = vec![(b"code".to_vec(), b"abc".to_vec())];
    assert!(matches!(s.step(LoopEvent::Handled(Some(late))), LoopAction::Exit));
    assert!(!s.delivered);
}

#[test]
fn bad_requests_keep_session_running() {
    let mut s = SessionLoop::new();
    assert!(matches!(s.step(LoopEvent::Handled(None)), LoopAction::Continue));
    assert!(matches!(s.step(LoopEvent::ConnectionFailed), LoopAction::Continue));
    assert!(matches!(s.step(LoopEvent::AcceptFailed), LoopAction::Continue));
    assert!(!s.cancelled);
    let q = vec![(b"code".to_vec(), b"abc".to_vec())];
    match s.step(LoopEvent::Handled(Some(q.clone()))) {
        LoopAction::DeliverAndExit(got) => assert_eq!(got, q),
        other => panic!("unexpected {:?}", other),
    }
    assert!(s.cancelled && s.delivered);
}

#[test]
fn capture_is_delivered_once() {
    let mut s = SessionLoop::new();
    let q = vec![(b"state".to_vec(), b"xyz".to_vec())];
    assert!(matches!(s.step(LoopEvent::Handled(Some(q.clone()))), LoopAction::DeliverAndExit(_)));
    assert!(matches!(s.step(LoopEvent::Handled(Some(q))), LoopAction::Exit));
    assert!(matches!(s.step(LoopEvent::Cancelled), LoopAction::Exit));
}

#[test]
fn external_cancel_exits() {
    let mut s = SessionLoop::new();
    assert!(matches!(s.step(LoopEvent::Cancelled), LoopAction::Exit));
    assert!(s.cancelled && !s.delivered);
}

#[test]
fn end_to_end_example() {
    let mut s = SessionLoop::new();
    let out = handle_request(b"GET /?code=abc&state=xyz HTTP/1.1\r\nHost: x\r\n\r\n");
    assert!(out.response.starts_with("HTTP/1.1 204 No Content\r\n"));
    assert!(out.response.ends_with("\r\n\r\n"));
    match s.step(LoopEvent::Handled(out.captured)) {
        LoopAction::DeliverAndExit(mut got) => {
            got.sort();
            assert_eq!(
                got,
                vec![
                    (b"code".to_vec(), b"abc".to_vec()),
                    (b"state".to_vec(), b"xyz".to_vec())
                ]
            );
        }
        other => panic!("unexpected {:?}", other),
    }
    // The session already cancelled itself: cancelling afterwards has nothing to do.
    assert!(cancel_plan(false).is_empty());
}

#[test]
fn bad_request_then_valid_request() {
    let mut s = SessionLoop::new();
    let bad = handle_request(b"DELETE / HTTP/1.1\r\n\r\n");
    assert!(bad.response.starts_with("HTTP/1.1 400 Bad Request\r\n"));
    assert!(matches!(s.step(LoopEvent::Handled(bad.captured)), LoopAction::Continue));
    let good = handle_request(b"GET /?a=1 HTTP/1.1\r\n\r\n");
    assert!(matches!(
        s.step(LoopEvent::Handled(good.captured)),
        LoopAction::DeliverAndExit(_)
    ));
}
