use ssl_proxy_manager::config::ListenRule;
use ssl_proxy_manager::listener::{
    bind_address, step, BindError, ListenerAction, ListenerEvent, ListenerManager, ListenerState,
};

fn listen_rule(addr: &str) -> ListenRule {
    ListenRule {
        id: None,
        listen_addr: addr.to_string(),
        ssl_enable: false,
        cert_file: String::new(),
        key_file: String::new(),
        basic_auth_enable: false,
        basic_auth_username: String::new(),
        basic_auth_password: String::new(),
        basic_auth_forward_header: false,
        routes: vec![],
    }
}

#[test]
fn start_bind_listen_stop_drain_close() {
    let (s, a) = step(ListenerState::Unbound, ListenerEvent::Start);
    assert_eq!((s, a), (ListenerState::Binding, ListenerAction::Bind));
    let (s, a) = step(s, ListenerEvent::Bound);
    assert_eq!((s, a), (ListenerState::Listening, ListenerAction::Accept));
    let (s, a) = step(s, ListenerEvent::Stop);
    assert_eq!((s, a), (ListenerState::Draining, ListenerAction::StopAccepting));
    let (s, a) = step(s, ListenerEvent::Drained);
    assert_eq!((s, a), (ListenerState::Closed, ListenerAction::Release));
    let (s, a) = step(s, ListenerEvent::Start);
    assert_eq!((s, a), (ListenerState::Binding, ListenerAction::Bind));
}

#[test]
fn bind_failures_close_and_report_their_kind() {
    for e in [
        BindError::AddressInUse,
        BindError::PermissionDenied,
        BindError::InvalidAddress,
        BindError::TlsCertError,
    ] {
        assert_eq!(
            step(ListenerState::Binding, ListenerEvent::BindFailed(e)),
            (ListenerState::Closed, ListenerAction::Report(e))
        );
    }
}

#[test]
fn grace_deadline_forces_the_close() {
    assert_eq!(
        step(ListenerState::Draining, ListenerEvent::GraceExpired),
        (ListenerState::Closed, ListenerAction::ForceClose)
    );
}

#[test]
fn events_that_do_not_fit_change_nothing() {
    let states = [
        ListenerState::Unbound,
        ListenerState::Binding,
        ListenerState::Listening,
        ListenerState::Draining,
        ListenerState::Closed,
    ];
    let events = [
        ListenerEvent::Start,
        ListenerEvent::Bound,
        ListenerEvent::BindFailed(BindError::AddressInUse),
        ListenerEvent::Stop,
        ListenerEvent::Drained,
        ListenerEvent::GraceExpired,
    ];
    let mut changes = 0;
    for s in states {
        for e in events {
            let (next, action) = step(s, e);
            if action == ListenerAction::Nothing {
                assert_eq!(next, s);
            } else {
                changes += 1;
            }
        }
    }
    assert_eq!(changes, 7);
    assert_eq!(step(ListenerState::Listening, ListenerEvent::Start).1, ListenerAction::Nothing);
    assert_eq!(step(ListenerState::Draining, ListenerEvent::Start).1, ListenerAction::Nothing);
    assert_eq!(step(ListenerState::Binding, ListenerEvent::Start).1, ListenerAction::Nothing);
}

#[test]
fn manager_runs_listeners_independently() {
    let mut m = ListenerManager::from_rules(&vec![listen_rule(":443"), listen_rule(":8443")]);
    assert_eq!(m.len(), 2);
    assert!(!m.is_running());
    assert!(m.listen_addrs().is_empty());
    assert_eq!(m.handle(0, ListenerEvent::Start), ListenerAction::Bind);
    assert_eq!(m.handle(1, ListenerEvent::Start), ListenerAction::Bind);
    assert_eq!(
        m.handle(0, ListenerEvent::BindFailed(BindError::AddressInUse)),
        ListenerAction::Report(BindError::AddressInUse)
    );
    assert_eq!(m.handle(1, ListenerEvent::Bound), ListenerAction::Accept);
    assert_eq!(m.state(0), ListenerState::Closed);
    assert_eq!(m.last_error(0), Some(BindError::AddressInUse));
    assert_eq!(m.state(1), ListenerState::Listening);
    assert_eq!(m.last_error(1), None);
    assert!(m.is_running());
    assert_eq!(m.listen_addrs(), vec![":8443".to_string()]);
    assert_eq!(m.handle(0, ListenerEvent::Start), ListenerAction::Bind);
    assert_eq!(m.last_error(0), None);
    assert_eq!(m.handle(0, ListenerEvent::Bound), ListenerAction::Accept);
    assert_eq!(m.listen_addrs(), vec![":443".to_string(), ":8443".to_string()]);
    assert_eq!(m.handle(1, ListenerEvent::Stop), ListenerAction::StopAccepting);
    assert_eq!(m.listen_addrs(), vec![":443".to_string(), ":8443".to_string()]);
    assert!(m.is_running());
    assert_eq!(m.handle(1, ListenerEvent::Drained), ListenerAction::Release);
    assert_eq!(m.listen_addrs(), vec![":443".to_string()]);
    assert_eq!(m.handle(7, ListenerEvent::Start), ListenerAction::Nothing);
}

#[test]
fn bare_port_binds_every_interface() {
    assert_eq!(bind_address(":8443"), "0.0.0.0:8443");
    assert_eq!(bind_address("127.0.0.1:8443"), "127.0.0.1:8443");
    assert_eq!(bind_address("[::]:443"), "[::]:443");
    assert_eq!(bind_address(""), "");
}
