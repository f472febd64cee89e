use anytls::server::handler::{relay_step, should_send_synack, RelayStep, RELAY_BUFFER_SIZE};
use anytls::{
    AnyTlsError, Command, ProxyAction, ProxyError, ProxyEvent, ProxyHandshake, SocksAddrError,
    SocksField, SocksHost, TcpProxyHandler,
};

fn domain_request() -> Vec<u8> {
    let mut input = vec![3, 11];
    input.extend_from_slice(b"example.com");
    input.extend_from_slice(&[0, 80]);
    input
}

/// Runs a handshake until it asks to connect (or finishes), answering reads from `input`.
fn read_address(h: ProxyHandshake, first: ProxyAction, input: &[u8]) -> (ProxyHandshake, ProxyAction) {
    let mut h = h;
    let mut action = first;
    let mut used = 0;
    loop {
        match action {
            ProxyAction::Read { field, len } => {
                let chunk = if field == SocksField::AddressType && used == input.len() {
                    vec![0]
                } else {
                    let c = input[used..used + len].to_vec();
                    used += len;
                    c
                };
                let (next, a) = h.step(ProxyEvent::Read(chunk));
                h = next;
                action = a;
            }
            other => return (h, other),
        }
    }
}

#[test]
fn handler_new() {
    let handler = TcpProxyHandler::new();
    assert_eq!(handler, TcpProxyHandler {});
}

#[test]
fn synack_from_version_two_on() {
    assert!(should_send_synack(2));
    assert!(should_send_synack(3));
    assert!(!should_send_synack(1));
    assert!(!should_send_synack(0));
}

#[test]
fn successful_connection_is_reported_then_relayed() {
    let (h, first) = ProxyHandshake::start(5, 2);
    let (h, action) = read_address(h, first, &domain_request());
    match action {
        ProxyAction::Connect(addr) => {
            assert_eq!(addr.host, SocksHost::Domain("example.com".to_string()));
            assert_eq!(addr.port, 80);
        }
        other => panic!("unexpected {:?}", other),
    }
    let (h, action) = h.step(ProxyEvent::Connected);
    match action {
        ProxyAction::SendSynAck(frame) => {
            assert_eq!(frame.cmd, Command::SynAck);
            assert_eq!(frame.stream_id, 5);
            assert!(frame.data.is_empty());
        }
        other => panic!("unexpected {:?}", other),
    }
    let (h, action) = h.step(ProxyEvent::SynAckSent);
    assert!(matches!(action, ProxyAction::Relay));
    let (_, action) = h.step(ProxyEvent::RelayDone);
    assert!(matches!(action, ProxyAction::Finish(Ok(()))));
}

#[test]
fn old_peers_get_no_synack() {
    let (h, first) = ProxyHandshake::start(5, 1);
    let (h, _) = read_address(h, first, &domain_request());
    let (h, action) = h.step(ProxyEvent::Connected);
    assert!(matches!(action, ProxyAction::Relay));
    let (_, action) = h.step(ProxyEvent::RelayDone);
    assert!(matches!(action, ProxyAction::Finish(Ok(()))));
}

#[test]
fn connection_failure_is_reported_with_its_message() {
    let (h, first) = ProxyHandshake::start(2, 2);
    let (h, _) = read_address(h, first, &domain_request());
    let message = "Failed to connect to example.com:80: refused".to_string();
    let (h, action) = h.step(ProxyEvent::ConnectFailed(message.clone()));
    match action {
        ProxyAction::SendSynAck(frame) => {
            assert_eq!(frame.cmd, Command::SynAck);
            assert_eq!(frame.stream_id, 2);
            assert_eq!(&frame.data[..], message.as_bytes());
        }
        other => panic!("unexpected {:?}", other),
    }
    let (_, action) = h.step(ProxyEvent::SynAckFailed(AnyTlsError::SessionClosed));
    match action {
        ProxyAction::Finish(Err(ProxyError::ConnectFailed(m))) => assert_eq!(m, message),
        other => panic!("unexpected {:?}", other),
    }
}

#[test]
fn first_stream_gets_a_synack_too() {
    let (h, first) = ProxyHandshake::start(1, 2);
    let (h, _) = read_address(h, first, &domain_request());
    let (_, action) = h.step(ProxyEvent::Connected);
    match action {
        ProxyAction::SendSynAck(frame) => {
            assert_eq!(frame.cmd, Command::SynAck);
            assert_eq!(frame.stream_id, 1);
            assert!(frame.data.is_empty());
        }
        other => panic!("unexpected {:?}", other),
    }
}

#[test]
fn connection_failure_for_old_peer_ends_at_once() {
    let (h, first) = ProxyHandshake::start(1, 1);
    let (h, _) = read_address(h, first, &domain_request());
    let (_, action) = h.step(ProxyEvent::ConnectFailed("no route".to_string()));
    match action {
        ProxyAction::Finish(Err(ProxyError::ConnectFailed(m))) => assert_eq!(m, "no route"),
        other => panic!("unexpected {:?}", other),
    }
}

#[test]
fn synack_send_failure_ends_the_stream() {
    let (h, first) = ProxyHandshake::start(3, 2);
    let (h, _) = read_address(h, first, &domain_request());
    let (h, _) = h.step(ProxyEvent::Connected);
    let (_, action) = h.step(ProxyEvent::SynAckFailed(AnyTlsError::SessionClosed));
    assert!(matches!(action, ProxyAction::Finish(Err(ProxyError::SynAck(AnyTlsError::SessionClosed)))));
}

#[test]
fn bad_address_ends_before_any_connection() {
    let (h, first) = ProxyHandshake::start(3, 2);
    let (_, action) = read_address(h, first, &[7]);
    assert!(matches!(
        action,
        ProxyAction::Finish(Err(ProxyError::Address(SocksAddrError::UnsupportedAddressType(7))))
    ));
}

#[test]
fn read_failure_names_the_field() {
    let (h, _) = ProxyHandshake::start(3, 2);
    let (h, action) = h.step(ProxyEvent::Read(vec![1]));
    assert!(matches!(action, ProxyAction::Read { field: SocksField::Ipv4, len: 4 }));
    let (_, action) = h.step(ProxyEvent::ReadFailed("early eof".to_string()));
    match action {
        ProxyAction::Finish(Err(ProxyError::ReadFailed(field, reason))) => {
            assert_eq!(field, SocksField::Ipv4);
            assert_eq!(reason, "early eof");
        }
        other => panic!("unexpected {:?}", other),
    }
}

#[test]
fn relay_stops_at_end_or_error() {
    assert_eq!(relay_step(Some(0)), RelayStep::Stop);
    assert_eq!(relay_step(None), RelayStep::Stop);
    assert_eq!(relay_step(Some(100)), RelayStep::Forward(100));
    assert_eq!(RELAY_BUFFER_SIZE, 8192);
}
