use rashin::error::{classify, RashinErr, TransportFault};
use rashin::reactor::{
    http_handler, init_http_event, response, Connection, Dispatch, Disposal, EventState,
    Handler, HandlerAction, Reactor, BUFFER_SIZE,
};
use rashin::request::RequestStatus;

fn ready_event(fd: i32, request: &[u8]) -> rashin::reactor::Event {
    let mut connection = Connection::new(fd);
    connection.buf[..request.len()].copy_from_slice(request);
    let mut event = init_http_event(connection);
    event.mark_readiness(true, true);
    event
}

#[test]
fn connection_starts_with_a_zeroed_buffer() {
    let connection = Connection::new(7);
    assert_eq!(connection.fd, 7);
    assert_eq!(connection.buf.len(), BUFFER_SIZE);
    assert_eq!(BUFFER_SIZE, 1024);
    assert!(connection.buf.iter().all(|b| *b == 0));
}

#[test]
fn fresh_event_is_ready_without_flags() {
    let event = init_http_event(Connection::new(4));
    assert!(event.is_ready());
    assert!(!event.readable);
    assert!(!event.writable);
    assert_eq!(event.handler, Handler::Http);
    assert!(!event.can_handle());
}

#[test]
fn handler_waits_for_both_directions() {
    let mut event = init_http_event(Connection::new(4));
    event.mark_readiness(true, false);
    assert!(event.readable && !event.writable);
    let action = http_handler(&mut event, Ok(3));
    assert!(matches!(action, HandlerAction::Idle));
    assert_eq!(event.state, EventState::Ready);
}

#[test]
fn shutdown_event_keeps_its_flags() {
    let mut event = init_http_event(Connection::new(4));
    event.state = EventState::Shutdown;
    event.mark_readiness(true, true);
    assert!(!event.readable && !event.writable);
}

#[test]
fn would_block_clears_readable() {
    let mut event = ready_event(4, b"");
    let action = http_handler(&mut event, Err(TransportFault::Transient));
    assert!(matches!(action, HandlerAction::Idle));
    assert!(!event.readable);
    assert!(event.writable);
    assert_eq!(event.state, EventState::Ready);
}

#[test]
fn failed_read_shuts_down_without_response() {
    let mut event = ready_event(4, b"");
    let action = http_handler(&mut event, Err(TransportFault::Fatal(104)));
    assert!(matches!(action, HandlerAction::Abort));
    assert_eq!(event.state, EventState::Shutdown);
}

#[test]
fn malformed_request_still_gets_the_response() {
    let request = b"GET / SMTP/1.1\r\n\r\n";
    let mut event = ready_event(4, request);
    let action = http_handler(&mut event, Ok(request.len()));
    match action {
        HandlerAction::Respond(req) => assert_eq!(req.status, RequestStatus::Malformed),
        _ => panic!("expected a response"),
    }
    assert_eq!(event.state, EventState::Shutdown);
}

#[test]
fn only_the_bytes_read_are_parsed() {
    let request = b"GET / HTTP/1.1\r\n\r\n";
    let mut event = ready_event(4, request);
    let action = http_handler(&mut event, Ok(10));
    match action {
        HandlerAction::Respond(req) => assert_eq!(req.status, RequestStatus::Incomplete),
        _ => panic!("expected a response"),
    }
}

#[test]
fn response_is_204_no_content() {
    assert_eq!(response(), b"HTTP/1.1 204 No Content\r\n\r\n".to_vec());
}

#[test]
fn end_to_end_request_gets_response_and_teardown() {
    let listener = 3;
    let mut reactor = Reactor::new(listener);
    assert_eq!(reactor.dispatch(listener), Dispatch::Accept);
    assert_eq!(reactor.dispatch(5), Dispatch::Unknown);
    reactor.register(5);
    assert_eq!(reactor.dispatch(5), Dispatch::Handle);

    let mut event = reactor.take(5).unwrap();
    assert_eq!(reactor.dispatch(5), Dispatch::Unknown);
    event.mark_readiness(true, true);
    assert!(event.can_handle());

    let request = b"GET /index.html HTTP/1.1\r\nHost: localhost:8080\r\n\r\n";
    let connection = event.connection.as_mut().unwrap();
    connection.buf[..request.len()].copy_from_slice(request);
    let action = http_handler(&mut event, Ok(request.len()));
    match &action {
        HandlerAction::Respond(req) => {
            assert_eq!(req.status, RequestStatus::Complete);
            let buf = &event.connection.as_ref().unwrap().buf;
            assert_eq!(req.header.path(buf), "/index.html");
            assert_eq!(req.header.fields[0].value(buf), "localhost:8080");
        }
        _ => panic!("expected a response"),
    }
    assert_eq!(response(), b"HTTP/1.1 204 No Content\r\n\r\n".to_vec());
    assert_eq!(event.state, EventState::Shutdown);
    assert_eq!(reactor.settle(5, event), Disposal::Teardown);
    assert_eq!(reactor.dispatch(5), Dispatch::Unknown);
}

#[test]
fn waiting_event_goes_back_to_the_registry() {
    let mut reactor = Reactor::new(3);
    reactor.register(6);
    let mut event = reactor.take(6).unwrap();
    event.mark_readiness(true, true);
    let action = http_handler(&mut event, Err(TransportFault::Transient));
    assert!(matches!(action, HandlerAction::Idle));
    assert_eq!(reactor.settle(6, event), Disposal::Keep);
    assert_eq!(reactor.dispatch(6), Dispatch::Handle);
    assert!(reactor.take(7).is_none());
}

#[test]
fn faults_are_sorted_by_code() {
    let eagain = 11;
    let eintr = 4;
    assert_eq!(classify(&RashinErr::SyscallError(11), eagain, eintr), TransportFault::Transient);
    assert_eq!(classify(&RashinErr::SyscallError(4), eagain, eintr), TransportFault::Interrupted);
    assert_eq!(classify(&RashinErr::SyscallError(9), eagain, eintr), TransportFault::Fatal(9));
    assert_eq!(RashinErr::SyscallError(9).code(), 9);
}
