use semtech_udp::json::parse_json;
use semtech_udp::tx_ack::{push_body, Data, Error};

#[test]
fn tx_nack_too_late() {
    let json = "{\"txpk_ack\": { \"error\": \"TOO_LATE\"}}";
    let tree = parse_json(json.as_bytes()).expect("Error parsing tx_ack");
    let parsed = Data::from_json(&tree).expect("Error parsing tx_ack");
    if let Err(Error::TooLate) = parsed.get_result() {
    } else {
        assert!(false);
    }
}

#[test]
fn tx_ack_deser() {
    let json = "{\"txpk_ack\":{\"error\":\"NONE\"}}";
    let tree = parse_json(json.as_bytes()).expect("Error parsing tx_ack");
    let parsed = Data::from_json(&tree).expect("Error parsing tx_ack");
    if let Err(_) = parsed.get_result() {
        assert!(false);
    }
}

#[test]
fn tx_ack_deser_with_tmst() {
    let json = "{\"txpk_ack\":{\"error\":\"NONE\", \"tmst\": 1234}}";
    let tree = parse_json(json.as_bytes()).expect("Error parsing tx_ack");
    let parsed = Data::from_json(&tree).expect("Error parsing tx_ack");
    match parsed.get_result() {
        Ok(Some(tmst)) => assert_eq!(1234, tmst),
        _ => assert!(false),
    }
}

#[test]
fn tx_nack_tx_power_legacy() {
    let json = "{ \"txpk_ack\": { \"error\" : \"TX_POWER\"}}";
    let tree = parse_json(json.as_bytes()).expect("Error parsing tx_ack");
    let parsed = Data::from_json(&tree).expect("Error parsing tx_ack");
    if let Err(Error::InvalidTransmitPower(v)) = parsed.get_result() {
        assert!(v.is_none());
    } else {
        assert!(false);
    }
}

#[test]
fn tx_nack_tx_power_sx1302deser() {
    let json = "{ \"txpk_ack\": { \"warn\" : \"TX_POWER\", \"value\" : 27 }}";
    let tree = parse_json(json.as_bytes()).expect("Error parsing tx_ack");
    let parsed = Data::from_json(&tree).expect("Error parsing tx_ack");
    if let Err(Error::AdjustedTransmitPower(power_used, tmst)) = parsed.get_result() {
        if let (Some(power_used), None) = (power_used, tmst) {
            assert_eq!(power_used, 27)
        } else {
            assert!(false)
        }
    } else {
        assert!(false)
    }
}

#[test]
fn tx_nack_tx_power_sx1302deser_with_tmst() {
    let json = "{ \"txpk_ack\": { \"warn\" : \"TX_POWER\", \"value\" : 27, \"tmst\": 1234 }}";
    let tree = parse_json(json.as_bytes()).expect("Error parsing tx_ack");
    let parsed = Data::from_json(&tree).expect("Error parsing tx_ack");
    if let Err(Error::AdjustedTransmitPower(power_used, tmst)) = parsed.get_result() {
        if let (Some(power_used), Some(tmst)) = (power_used, tmst) {
            assert_eq!(power_used, 27);
            assert_eq!(tmst, 1234)
        } else {
            assert!(false)
        }
    } else {
        assert!(false)
    }
}

#[test]
fn tx_nack_tx_power_sx1302_ser() {
    let invalid_transmit_power = Data::new_with_error(Error::AdjustedTransmitPower(Some(27), None));
    let mut out: Vec<u8> = Vec::new();
    push_body(&invalid_transmit_power, &mut out);
    let str = String::from_utf8(out).expect("serialization error");
    assert_eq!("{\"txpk_ack\":{\"warn\":\"TX_POWER\",\"value\":27}}", str)
}

#[test]
fn report_and_read_back_every_outcome() {
    // reporting an outcome and decoding the report gives the outcome back
    let outcomes = vec![
        Error::TooLate,
        Error::TooEarly,
        Error::CollisionPacket,
        Error::CollisionBeacon,
        Error::InvalidTransmitFrequency,
        Error::InvalidTransmitPower(None),
        Error::AdjustedTransmitPower(Some(14), Some(99)),
        Error::GpsUnlocked,
        Error::SendLBT,
        Error::SendFail,
    ];
    for e in outcomes {
        let data = Data::new_with_error(e);
        assert_eq!(data.get_result(), Err(e));
    }
}

#[test]
fn report_round_trips_through_text() {
    let data = Data::new_with_error(Error::AdjustedTransmitPower(Some(27), Some(1234)));
    let mut out: Vec<u8> = Vec::new();
    push_body(&data, &mut out);
    assert_eq!(
        String::from_utf8(out.clone()).unwrap(),
        "{\"txpk_ack\":{\"tmst\":1234,\"warn\":\"TX_POWER\",\"value\":27}}"
    );
    let tree = parse_json(&out).unwrap();
    let reparsed = Data::from_json(&tree).unwrap();
    assert_eq!(reparsed, data);
}
