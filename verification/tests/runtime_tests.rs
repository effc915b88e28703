use semtech_udp::client_runtime::{route_downlink, WriterState};
use semtech_udp::client_runtime::Event as ClientEvent;
use semtech_udp::json::{parse_json, JsonValue};
use semtech_udp::pull_resp;
use semtech_udp::pull_resp::txpk_from_fields;
use semtech_udp::server_runtime::{
    prepare_downlink, route_uplink, Action, Event, InternalEvent, ServerState,
};
use semtech_udp::tx_ack;
use semtech_udp::{Down, MacAddress, Packet, SocketAddress, Up};

#[test]
fn new_client_then_update_client() {
    let mut state = ServerState::new(Some(60_000));
    let mac = MacAddress::new(&[1, 2, 3, 4, 5, 6, 7, 8]);
    let addr_a = SocketAddress {
        ip: 0x0A000001,
        port: 4000,
        ipv6: false,
    };
    let addr_b = SocketAddress {
        ip: 0x0A000002,
        port: 4001,
        ipv6: false,
    };

    let events = state.handle_client(mac, addr_a, 1_000);
    assert_eq!(events.len(), 1);
    assert!(matches!(events[0], Event::NewClient((m, a)) if m == mac && a == addr_a));

    // the same address only refreshes the entry
    let events = state.handle_client(mac, addr_a, 2_000);
    assert_eq!(events.len(), 0);

    // a changed address yields exactly one update event
    let events = state.handle_client(mac, addr_b, 3_000);
    assert_eq!(events.len(), 1);
    assert!(matches!(events[0], Event::UpdateClient((m, a)) if m == mac && a == addr_b));

    // and downlinks now go to the new address
    let txpk = {
        let json = "{\"codr\":\"4/5\",\"data\":\"IHLF2EA+n8BFY1vrCU1k/Vg=\",\"datr\":\"SF10BW125\",\"freq\":904.1,\"imme\":true,\"ipol\":false,\"modu\":\"LORA\",\"powe\":27,\"rfch\":0,\"size\":87,\"tmst\":\"immediate\"}";
        let tree = parse_json(json.as_bytes()).unwrap();
        match tree {
            JsonValue::Object(fields) => txpk_from_fields(&fields).unwrap(),
            _ => panic!("not an object"),
        }
    };
    let mut handle = prepare_downlink(Some(txpk), mac);
    let ev = handle.into_event(7).unwrap();
    if let InternalEvent::Downlink(packet, m, waiter) = ev {
        let actions = state.handle_downlink(packet, m, waiter);
        assert_eq!(actions.len(), 1);
        assert!(matches!(
            &actions[0],
            Action::SpawnSend(_, m2, a, w) if *m2 == mac && *a == addr_b && *w == 7
        ));
    } else {
        assert!(false);
    }
}

#[test]
fn quiet_gateway_is_disconnected_exactly_once() {
    let mut state = ServerState::new(Some(60_000));
    let quiet = MacAddress::new(&[1, 1, 1, 1, 1, 1, 1, 1]);
    let lively = MacAddress::new(&[2, 2, 2, 2, 2, 2, 2, 2]);
    let addr_a = SocketAddress {
        ip: 1,
        port: 1,
        ipv6: false,
    };
    let addr_b = SocketAddress {
        ip: 2,
        port: 2,
        ipv6: false,
    };
    state.handle_client(quiet, addr_a, 0);
    state.handle_client(lively, addr_b, 50_000);

    let events = state.check_cache(100_000);
    assert_eq!(events.len(), 1);
    assert!(matches!(events[0], Event::ClientDisconnected((m, a)) if m == quiet && a == addr_a));

    // the entry is gone: a second sweep emits nothing more
    let events = state.check_cache(100_000);
    assert_eq!(events.len(), 0);

    // and a downlink for it reports no client
    let txpk = {
        let json = "{\"codr\":\"4/5\",\"data\":\"IHLF2EA+n8BFY1vrCU1k/Vg=\",\"datr\":\"SF10BW125\",\"freq\":904.1,\"imme\":true,\"ipol\":false,\"modu\":\"LORA\",\"powe\":27,\"rfch\":0,\"size\":87,\"tmst\":\"immediate\"}";
        let tree = parse_json(json.as_bytes()).unwrap();
        match tree {
            JsonValue::Object(fields) => txpk_from_fields(&fields).unwrap(),
            _ => panic!("not an object"),
        }
    };
    let mut handle = prepare_downlink(Some(txpk), quiet);
    if let Ok(InternalEvent::Downlink(packet, m, waiter)) = handle.into_event(1) {
        let actions = state.handle_downlink(packet, m, waiter);
        assert_eq!(actions.len(), 1);
        assert!(matches!(
            &actions[0],
            Action::Emit(Event::NoClientWithMac(_, m2)) if *m2 == quiet
        ));
    } else {
        assert!(false);
    }
}

#[test]
fn ack_reaches_exactly_the_registered_waiter() {
    let mut state = ServerState::new(Some(60_000));
    let mac = MacAddress::new(&[9, 9, 9, 9, 9, 9, 9, 9]);

    state.handle_success_send(0x1111, 41);
    state.handle_success_send(0x2222, 42);

    let ack = tx_ack::Packet {
        random_token: 0x2222,
        gateway_mac: mac,
        data: tx_ack::Data::empty(),
    };
    match state.handle_ack(ack) {
        Some((waiter, delivered)) => {
            assert_eq!(waiter, 42);
            assert_eq!(delivered.random_token, 0x2222);
        }
        None => assert!(false),
    }

    // a second acknowledgement under the same token is silently dropped
    let late = tx_ack::Packet {
        random_token: 0x2222,
        gateway_mac: mac,
        data: tx_ack::Data::empty(),
    };
    assert!(state.handle_ack(late).is_none());

    // the other waiter is untouched
    let other = tx_ack::Packet {
        random_token: 0x1111,
        gateway_mac: mac,
        data: tx_ack::Data::empty(),
    };
    match state.handle_ack(other) {
        Some((waiter, _)) => assert_eq!(waiter, 41),
        None => assert!(false),
    }
}

#[test]
fn stray_ack_is_dropped() {
    let mut state = ServerState::new(Some(60_000));
    let mac = MacAddress::new(&[9, 9, 9, 9, 9, 9, 9, 9]);
    let stray = tx_ack::Packet {
        random_token: 0xBEEF,
        gateway_mac: mac,
        data: tx_ack::Data::empty(),
    };
    assert!(state.handle_ack(stray).is_none());
}

#[test]
fn failed_send_evicts_the_gateway() {
    let mut state = ServerState::new(Some(60_000));
    let mac = MacAddress::new(&[3, 3, 3, 3, 3, 3, 3, 3]);
    let addr = SocketAddress {
        ip: 3,
        port: 3,
        ipv6: false,
    };
    state.handle_client(mac, addr, 0);

    let txpk = {
        let json = "{\"codr\":\"4/5\",\"data\":\"IHLF2EA+n8BFY1vrCU1k/Vg=\",\"datr\":\"SF10BW125\",\"freq\":904.1,\"imme\":true,\"ipol\":false,\"modu\":\"LORA\",\"powe\":27,\"rfch\":0,\"size\":87,\"tmst\":\"immediate\"}";
        let tree = parse_json(json.as_bytes()).unwrap();
        match tree {
            JsonValue::Object(fields) => txpk_from_fields(&fields).unwrap(),
            _ => panic!("not an object"),
        }
    };
    let mut handle = prepare_downlink(Some(txpk), mac);
    if let Ok(InternalEvent::Downlink(packet, m, _)) = handle.into_event(1) {
        let events = state.handle_failed_send(packet, m);
        assert_eq!(events.len(), 1);
        assert!(matches!(&events[0], Event::NoClientWithMac(_, m2) if *m2 == mac));
    } else {
        assert!(false);
    }

    // the entry is gone: no disconnect event can follow for it
    let events = state.check_cache(1_000_000);
    assert_eq!(events.len(), 0);
}

#[test]
fn dispatch_without_packet_is_refused() {
    let mac = MacAddress::new(&[4, 4, 4, 4, 4, 4, 4, 4]);
    let handle = prepare_downlink(None, mac);
    assert!(handle.into_event(1).is_err());
}

#[test]
fn uplink_routing_reports_rxpk_before_stat() {
    let recv = [
        0x2, 0x86, 0xBE, 0x0, 0xAA, 0x55, 0x5A, 0x0, 0x0, 0x0, 0x0, 0x0, 0x7B, 0x22, 0x73, 0x74,
        0x61, 0x74, 0x22, 0x3A, 0x7B, 0x22, 0x74, 0x69, 0x6D, 0x65, 0x22, 0x3A, 0x22, 0x32, 0x30,
        0x32, 0x30, 0x2D, 0x30, 0x33, 0x2D, 0x30, 0x34, 0x20, 0x30, 0x37, 0x3A, 0x30, 0x31, 0x3A,
        0x30, 0x32, 0x20, 0x47, 0x4D, 0x54, 0x22, 0x2C, 0x22, 0x72, 0x78, 0x6E, 0x62, 0x22, 0x3A,
        0x33, 0x2C, 0x22, 0x72, 0x78, 0x6F, 0x6B, 0x22, 0x3A, 0x33, 0x2C, 0x22, 0x72, 0x78, 0x66,
        0x77, 0x22, 0x3A, 0x33, 0x2C, 0x22, 0x61, 0x63, 0x6B, 0x72, 0x22, 0x3A, 0x30, 0x2E, 0x30,
        0x2C, 0x22, 0x64, 0x77, 0x6E, 0x62, 0x22, 0x3A, 0x30, 0x2C, 0x22, 0x74, 0x78, 0x6E, 0x62,
        0x22, 0x3A, 0x30, 0x7D, 0x7D,
    ];
    let src = SocketAddress {
        ip: 7,
        port: 7,
        ipv6: false,
    };
    if let Ok(Packet::Up(up)) = Packet::parse(&recv) {
        let events = route_uplink(up, src);
        // the table refresh first, then the telemetry, then the acknowledgement
        assert_eq!(events.len(), 3);
        assert!(matches!(&events[0], InternalEvent::Client(_, a) if *a == src));
        assert!(matches!(&events[1], InternalEvent::StatReceived(_, _)));
        assert!(matches!(&events[2], InternalEvent::PacketBySocket(_, a) if *a == src));
    } else {
        assert!(false);
    }
}

#[test]
fn uplink_routing_orders_frames_before_telemetry() {
    // a body carrying one received frame and telemetry together
    let mut frame: Vec<u8> = vec![2, 0, 1, 0, 0xAA, 0x55, 0x5A, 0, 0, 0, 0, 0];
    let body = "{\"rxpk\":[{\"tmst\":1472242252,\"chan\":8,\"rfch\":0,\"freq\":912.6,\"stat\":1,\"modu\":\"LORA\",\"datr\":\"SF8BW500\",\"codr\":\"4/5\",\"lsnr\":10.8,\"rssi\":-58,\"size\":23,\"data\":\"ALQAAAABAAAASGVsaXVtICA0LDYCNrA=\"}],\"stat\":{\"time\":\"2020-03-04 07:01:02 GMT\",\"rxnb\":3,\"rxok\":3,\"rxfw\":3,\"ackr\":0.0,\"dwnb\":0,\"txnb\":0}}";
    frame.extend_from_slice(body.as_bytes());
    let src = SocketAddress {
        ip: 11,
        port: 1680,
        ipv6: false,
    };
    if let Ok(Packet::Up(up)) = Packet::parse(&frame) {
        let events = route_uplink(up, src);
        assert_eq!(events.len(), 4);
        assert!(matches!(&events[0], InternalEvent::Client(_, _)));
        assert!(matches!(&events[1], InternalEvent::PacketReceived(_, _)));
        assert!(matches!(&events[2], InternalEvent::StatReceived(_, _)));
        assert!(matches!(&events[3], InternalEvent::PacketBySocket(_, _)));
    } else {
        assert!(false);
    }
}

#[test]
fn keepalive_routing_acknowledges_by_address() {
    let recv = [
        0x2, 0x9F, 0x92, 0x2, 0xAA, 0x55, 0x5A, 0x1, 0x2, 0x3, 0x4, 0x5,
    ];
    let src = SocketAddress {
        ip: 9,
        port: 1680,
        ipv6: false,
    };
    if let Ok(Packet::Up(up)) = Packet::parse(&recv) {
        let events = route_uplink(up, src);
        assert_eq!(events.len(), 2);
        assert!(matches!(&events[0], InternalEvent::Client(_, a) if *a == src));
        match &events[1] {
            InternalEvent::PacketBySocket(Packet::Down(Down::PullAck(p)), a) => {
                assert_eq!(p.random_token, 0x9F92);
                assert_eq!(*a, src);
            }
            _ => assert!(false),
        }
    } else {
        assert!(false);
    }
}

#[test]
fn writer_state_emits_only_on_transitions() {
    let mut w = WriterState::new();
    assert!(w.after_send(true).is_none());
    assert!(matches!(w.after_send(false), Some(ClientEvent::LostConnection)));
    assert!(w.after_send(false).is_none());
    assert!(matches!(w.after_send(true), Some(ClientEvent::Reconnected)));
    assert!(w.after_send(true).is_none());
}

#[test]
fn downlink_request_answers_under_the_request_token() {
    let mac = MacAddress::new(&[8, 7, 6, 5, 4, 3, 2, 1]);
    let txpk = {
        let json = "{\"codr\":\"4/5\",\"data\":\"IHLF2EA+n8BFY1vrCU1k/Vg=\",\"datr\":\"SF10BW125\",\"freq\":904.1,\"imme\":true,\"ipol\":false,\"modu\":\"LORA\",\"powe\":27,\"rfch\":0,\"size\":87,\"tmst\":\"immediate\"}";
        let tree = parse_json(json.as_bytes()).unwrap();
        match tree {
            JsonValue::Object(fields) => txpk_from_fields(&fields).unwrap(),
            _ => panic!("not an object"),
        }
    };
    let request = pull_resp::Packet {
        random_token: 0x4242,
        data: pull_resp::Data::from_txpk(txpk),
    };
    match route_downlink(Down::PullResp(Box::new(request)), mac) {
        Some(ClientEvent::DownlinkRequest(req)) => {
            assert_eq!(req.mac, mac);
            let ack = req.ack_packet();
            assert_eq!(ack.random_token, 0x4242);
            assert_eq!(ack.gateway_mac, mac);
            assert!(ack.get_result().is_ok());
        }
        _ => assert!(false),
    }

    // acknowledgements of either kind are dropped silently
    assert!(route_downlink(
        Down::PullAck(semtech_udp::pull_ack::Packet { random_token: 1 }),
        mac
    )
    .is_none());
    assert!(route_downlink(
        Down::PushAck(semtech_udp::push_ack::Packet { random_token: 2 }),
        mac
    )
    .is_none());
}

#[test]
fn nack_reports_the_chosen_outcome() {
    let mac = MacAddress::new(&[8, 7, 6, 5, 4, 3, 2, 1]);
    let txpk = {
        let json = "{\"codr\":\"4/5\",\"data\":\"IHLF2EA+n8BFY1vrCU1k/Vg=\",\"datr\":\"SF10BW125\",\"freq\":904.1,\"imme\":true,\"ipol\":false,\"modu\":\"LORA\",\"powe\":27,\"rfch\":0,\"size\":87,\"tmst\":\"immediate\"}";
        let tree = parse_json(json.as_bytes()).unwrap();
        match tree {
            JsonValue::Object(fields) => txpk_from_fields(&fields).unwrap(),
            _ => panic!("not an object"),
        }
    };
    let request = pull_resp::Packet {
        random_token: 0x7777,
        data: pull_resp::Data::from_txpk(txpk),
    };
    match route_downlink(Down::PullResp(Box::new(request)), mac) {
        Some(ClientEvent::DownlinkRequest(req)) => {
            let nack = req.nack_packet(tx_ack::Error::TooLate);
            assert_eq!(nack.random_token, 0x7777);
            assert_eq!(nack.get_result(), Err(tx_ack::Error::TooLate));
        }
        _ => assert!(false),
    }
}
