use proto_mux::handler::Action;
use proto_mux::handler::DialUpgradeError;
use proto_mux::handler::EnabledState;
use proto_mux::handler::InboundCommand;
use proto_mux::handler::InboundNegotiation;
use proto_mux::handler::KeepAlive;
use proto_mux::handler::LegacyCommand;
use proto_mux::handler::LegacyEvent;
use proto_mux::handler::NotifsHandler;
use proto_mux::handler::NotifsHandlerIn;
use proto_mux::handler::NotifsHandlerOut;
use proto_mux::handler::NotifsHandlerProto;
use proto_mux::handler::NotifsInEvent;
use proto_mux::handler::NotifsOutEvent;
use proto_mux::handler::OutboundCommand;
use proto_mux::handler::OutboundNegotiation;
use proto_mux::handler::PollOutcome;
use proto_mux::handler::RegisteredProtocol;
use proto_mux::handler::RoutedUpgradeError;

fn make_handler() -> NotifsHandler {
    let proto = NotifsHandlerProto::new(
        RegisteredProtocol { id: b"/legacy/1".to_vec() },
        vec![
            (b"block-announce".to_vec(), vec![1]),
            (b"transactions".to_vec(), vec![2]),
        ],
    );
    proto.into_handler()
}

#[test]
fn handler_lists_stay_parallel() {
    let h = make_handler();
    assert_eq!(h.num_in_handlers(), 2);
    assert_eq!(h.num_out_handlers(), 2);
    assert_eq!(h.enabled_state(), EnabledState::Initial);
    assert!(h.pending_indices().is_empty());
    let offered = h.listen_protocol();
    assert_eq!(
        offered,
        vec![
            b"block-announce".to_vec(),
            b"transactions".to_vec(),
            b"/legacy/1".to_vec()
        ]
    );
}

#[test]
fn first_enable_transitions_then_stays() {
    let mut h = make_handler();
    let acts = h.inject_event(NotifsHandlerIn::Enable);
    assert_eq!(h.enabled_state(), EnabledState::Enabled);
    assert_eq!(
        acts,
        vec![
            Action::Legacy { command: LegacyCommand::Enable },
            Action::Outbound { index: 0, command: OutboundCommand::Enable },
            Action::Outbound { index: 1, command: OutboundCommand::Enable },
        ]
    );
    // a later Disable no longer changes the state but still propagates
    let acts2 = h.inject_event(NotifsHandlerIn::Disable);
    assert_eq!(h.enabled_state(), EnabledState::Enabled);
    assert_eq!(
        acts2,
        vec![
            Action::Legacy { command: LegacyCommand::Disable },
            Action::Outbound { index: 0, command: OutboundCommand::Disable },
            Action::Outbound { index: 1, command: OutboundCommand::Disable },
        ]
    );
}

#[test]
fn scenario_disable_then_open_request_is_refused() {
    let mut h = make_handler();
    h.inject_event(NotifsHandlerIn::Disable);
    assert_eq!(h.enabled_state(), EnabledState::Disabled);
    let (outcome, acts) = h.poll(
        &vec![None, Some(NotifsInEvent::OpenRequest)],
        &vec![None, None],
        &None,
    );
    assert_eq!(outcome, PollOutcome::Pending);
    assert_eq!(
        acts,
        vec![Action::Inbound { index: 1, command: InboundCommand::Refuse }]
    );
    assert!(h.pending_indices().is_empty());
}

#[test]
fn scenario_pending_request_accepted_on_enable() {
    let mut h = make_handler();
    let (outcome, acts) = h.poll(
        &vec![Some(NotifsInEvent::OpenRequest), None],
        &vec![None, None],
        &None,
    );
    assert_eq!(outcome, PollOutcome::Pending);
    assert!(acts.is_empty());
    assert_eq!(h.pending_indices(), vec![0]);
    let acts = h.inject_event(NotifsHandlerIn::Enable);
    assert_eq!(
        acts,
        vec![
            Action::Legacy { command: LegacyCommand::Enable },
            Action::Outbound { index: 0, command: OutboundCommand::Enable },
            Action::Outbound { index: 1, command: OutboundCommand::Enable },
            Action::Inbound { index: 0, command: InboundCommand::Accept { handshake: vec![1] } },
        ]
    );
    assert!(h.pending_indices().is_empty());
}

#[test]
fn scenario_dial_upgrade_timeout_routes_by_token() {
    let h = make_handler();
    let routed = h.inject_dial_upgrade_error(Some(1), DialUpgradeError::Timeout);
    assert_eq!(
        routed,
        Some(Action::Outbound {
            index: 1,
            command: OutboundCommand::DialUpgradeError { error: RoutedUpgradeError::Timeout },
        })
    );
    let legacy = h.inject_dial_upgrade_error(None, DialUpgradeError::Timeout);
    assert_eq!(
        legacy,
        Some(Action::Legacy {
            command: LegacyCommand::DialUpgradeError { error: RoutedUpgradeError::Timeout },
        })
    );
    // token/error-kind mismatch is dropped
    assert_eq!(h.inject_dial_upgrade_error(Some(0), DialUpgradeError::ApplyLegacy), None);
    assert_eq!(h.inject_dial_upgrade_error(None, DialUpgradeError::ApplyNotifications), None);
}

#[test]
fn negotiated_substreams_route_by_token() {
    let h = make_handler();
    assert_eq!(
        h.inject_fully_negotiated_inbound(InboundNegotiation::Notifications { index: 1 }),
        Action::Inbound { index: 1, command: InboundCommand::FullyNegotiated }
    );
    assert_eq!(
        h.inject_fully_negotiated_inbound(InboundNegotiation::Legacy),
        Action::Legacy { command: LegacyCommand::FullyNegotiatedInbound }
    );
    assert_eq!(
        h.inject_fully_negotiated_outbound(OutboundNegotiation::Notifications, Some(0)),
        Some(Action::Outbound { index: 0, command: OutboundCommand::FullyNegotiated })
    );
    assert_eq!(
        h.inject_fully_negotiated_outbound(OutboundNegotiation::Legacy, None),
        Some(Action::Legacy { command: LegacyCommand::FullyNegotiatedOutbound })
    );
    // mismatched pairings are defects and are dropped
    assert_eq!(h.inject_fully_negotiated_outbound(OutboundNegotiation::Notifications, None), None);
    assert_eq!(
        h.inject_fully_negotiated_outbound(OutboundNegotiation::Legacy, Some(1)),
        None
    );
}

#[test]
fn send_notification_falls_back_to_legacy_with_wrapped_message() {
    let mut h = make_handler();
    let acts = h.inject_event(NotifsHandlerIn::SendNotification {
        proto_name: b"transactions".to_vec(),
        engine_id: *b"abcd",
        message: vec![9, 9],
    });
    // engine id, then the length-prefixed payload (compact(2) == 8)
    assert_eq!(
        acts,
        vec![Action::Legacy {
            command: LegacyCommand::SendCustomMessage { message: vec![97, 98, 99, 100, 8, 9, 9] },
        }]
    );
}

#[test]
fn send_notification_uses_open_matching_substream() {
    let mut h = make_handler();
    h.inject_event(NotifsHandlerIn::Enable);
    // the outbound handler for protocol 1 reports its substream open
    let (outcome, _) = h.poll(
        &vec![None, None],
        &vec![None, Some(NotifsOutEvent::Open { handshake: vec![0] })],
        &None,
    );
    assert_eq!(outcome, PollOutcome::Pending);
    assert!(h.is_open(1));
    assert!(!h.is_open(0));
    let acts = h.inject_event(NotifsHandlerIn::SendNotification {
        proto_name: b"transactions".to_vec(),
        engine_id: *b"abcd",
        message: vec![5],
    });
    assert_eq!(
        acts,
        vec![Action::Outbound { index: 1, command: OutboundCommand::Send { message: vec![5] } }]
    );
    // a different protocol still falls back to legacy
    let acts = h.inject_event(NotifsHandlerIn::SendNotification {
        proto_name: b"block-announce".to_vec(),
        engine_id: *b"abcd",
        message: vec![5],
    });
    assert_eq!(
        acts,
        vec![Action::Legacy {
            command: LegacyCommand::SendCustomMessage { message: vec![97, 98, 99, 100, 4, 5] },
        }]
    );
}

#[test]
fn send_forwards_raw_messages_to_legacy() {
    let mut h = make_handler();
    let acts = h.inject_event(NotifsHandlerIn::Send { message: vec![1, 2, 3] });
    assert_eq!(
        acts,
        vec![Action::Legacy {
            command: LegacyCommand::SendCustomMessage { message: vec![1, 2, 3] },
        }]
    );
}

#[test]
fn poll_surfaces_notifications_with_protocol_name() {
    let mut h = make_handler();
    let (outcome, acts) = h.poll(
        &vec![None, Some(NotifsInEvent::Notif { message: vec![42] })],
        &vec![None, None],
        &None,
    );
    assert!(acts.is_empty());
    assert_eq!(
        outcome,
        PollOutcome::Custom(NotifsHandlerOut::CustomMessage {
            proto_name: Some(b"transactions".to_vec()),
            message: vec![42],
        })
    );
}

#[test]
fn poll_priority_order_inbound_then_outbound_then_legacy() {
    let mut h = make_handler();
    // inbound notification wins over outbound request and legacy event
    let (outcome, _) = h.poll(
        &vec![Some(NotifsInEvent::Notif { message: vec![1] }), None],
        &vec![Some(NotifsOutEvent::SubstreamRequest), None],
        &Some(LegacyEvent::CustomProtocolOpen),
    );
    assert_eq!(
        outcome,
        PollOutcome::Custom(NotifsHandlerOut::CustomMessage {
            proto_name: Some(b"block-announce".to_vec()),
            message: vec![1],
        })
    );
    // outbound request wins over legacy, and carries its index as token
    let (outcome, _) = h.poll(
        &vec![None, None],
        &vec![None, Some(NotifsOutEvent::SubstreamRequest)],
        &Some(LegacyEvent::CustomProtocolOpen),
    );
    assert_eq!(outcome, PollOutcome::OutboundSubstreamRequest { token: Some(1) });
    // legacy last, with a None token for its own substream request
    let (outcome, _) = h.poll(&vec![None, None], &vec![None, None], &Some(LegacyEvent::SubstreamRequest));
    assert_eq!(outcome, PollOutcome::OutboundSubstreamRequest { token: None });
}

#[test]
fn poll_translates_legacy_events_one_to_one() {
    let mut h = make_handler();
    let cases = vec![
        (
            LegacyEvent::CustomProtocolOpen,
            PollOutcome::Custom(NotifsHandlerOut::CustomProtocolOpen),
        ),
        (
            LegacyEvent::CustomProtocolClosed { reason: b"bye".to_vec() },
            PollOutcome::Custom(NotifsHandlerOut::CustomProtocolClosed { reason: b"bye".to_vec() }),
        ),
        (
            LegacyEvent::CustomMessage { message: vec![3, 4] },
            PollOutcome::Custom(NotifsHandlerOut::CustomMessage {
                proto_name: None,
                message: vec![3, 4],
            }),
        ),
        (
            LegacyEvent::Clogged { messages: vec![vec![1], vec![2]] },
            PollOutcome::Custom(NotifsHandlerOut::Clogged { messages: vec![vec![1], vec![2]] }),
        ),
        (
            LegacyEvent::ProtocolError { is_severe: true, message: b"bad".to_vec() },
            PollOutcome::Custom(NotifsHandlerOut::ProtocolError {
                is_severe: true,
                message: b"bad".to_vec(),
            }),
        ),
        (
            LegacyEvent::Close { message: b"fatal".to_vec() },
            PollOutcome::Close { message: b"fatal".to_vec() },
        ),
    ];
    for (ev, expected) in cases {
        let (outcome, acts) = h.poll(&vec![None, None], &vec![None, None], &Some(ev));
        assert!(acts.is_empty());
        assert_eq!(outcome, expected);
    }
}

#[test]
fn disable_closes_outbound_substreams() {
    let mut h = make_handler();
    h.inject_event(NotifsHandlerIn::Enable);
    h.poll(
        &vec![None, None],
        &vec![Some(NotifsOutEvent::Open { handshake: vec![] }), None],
        &None,
    );
    assert!(h.is_open(0));
    h.inject_event(NotifsHandlerIn::Disable);
    assert!(!h.is_open(0));
}

#[test]
fn keep_alive_is_strongest_signal() {
    let h = make_handler();
    // any Yes wins
    let r = h.connection_keep_alive(
        KeepAlive::Until(5),
        &vec![KeepAlive::Yes, KeepAlive::No],
        &vec![KeepAlive::No, KeepAlive::No],
    );
    assert_eq!(r, KeepAlive::Yes);
    // otherwise the longest timeout wins
    let r = h.connection_keep_alive(
        KeepAlive::Until(5),
        &vec![KeepAlive::No, KeepAlive::Until(9)],
        &vec![KeepAlive::Until(7), KeepAlive::No],
    );
    assert_eq!(r, KeepAlive::Until(9));
    // with no other signal the legacy report stands
    let r = h.connection_keep_alive(
        KeepAlive::No,
        &vec![KeepAlive::No, KeepAlive::No],
        &vec![KeepAlive::No, KeepAlive::No],
    );
    assert_eq!(r, KeepAlive::No);
}
