use semtech_udp::json::{parse_json, JsonValue};
use semtech_udp::pull_resp::{push_txpk, txpk_from_fields};

#[test]
fn test_immediate_send() {
    let json = "{\"codr\":\"4/5\",\"data\":\"IHLF2EA+n8BFY1vrCU1k/Vg=\",\"datr\":\"SF10BW125\",\"freq\":904.1,\"imme\":true,\"ipol\":false,\"modu\":\"LORA\",\"powe\":27,\"rfch\":0,\"size\":87,\"tmst\":\"immediate\"}";
    let tree = parse_json(json.as_bytes()).unwrap();
    let txpk = match tree {
        JsonValue::Object(fields) => txpk_from_fields(&fields).unwrap(),
        _ => panic!("not an object"),
    };
    assert!(txpk.is_immediate());
    assert!(txpk.tmms.is_none())
}

#[test]
fn test_immediate_send_null_tmst() {
    let json = "{\"imme\":true,\"rfch\":0,\"powe\":27,\"ant\":0,\"brd\":0,\"freq\":869.525,\"modu\":\"LORA\",\"datr\":\"SF12BW125\",\"codr\":\"4/5\",\"ipol\":true,\"size\":15,\"data\":\"oL8/tACQAgABICUK5CYB\"}";
    let tree = parse_json(json.as_bytes()).unwrap();
    let txpk = match tree {
        JsonValue::Object(fields) => txpk_from_fields(&fields).unwrap(),
        _ => panic!("not an object"),
    };
    assert!(txpk.is_immediate())
}

#[test]
fn test_timed_send() {
    let json = "{\"codr\":\"4/5\",\"data\":\"IHLF2EA+n8BFY1vrCU1k/Vg=\",\"datr\":\"SF10BW500\",\"freq\":926.9000244140625,\"imme\":false,\"ipol\":true,\"modu\":\"LORA\",\"powe\":27,\"rfch\":0,\"size\":17,\"tmst\":727050748}";
    let tree = parse_json(json.as_bytes()).unwrap();
    let txpk = match tree {
        JsonValue::Object(fields) => txpk_from_fields(&fields).unwrap(),
        _ => panic!("not an object"),
    };
    assert!(!txpk.is_immediate());
    if let Some(time) = txpk.get_tmst() {
        assert_eq!(727050748, time);
    } else {
        assert!(false);
    }
}

#[test]
fn txpk_round_trips_through_text() {
    let json = "{\"codr\":\"4/5\",\"data\":\"IHLF2EA+n8BFY1vrCU1k/Vg=\",\"datr\":\"SF10BW500\",\"freq\":926.9000244140625,\"imme\":false,\"ipol\":true,\"modu\":\"LORA\",\"powe\":27,\"rfch\":0,\"size\":17,\"tmst\":727050748}";
    let tree = parse_json(json.as_bytes()).unwrap();
    let txpk = match tree {
        JsonValue::Object(fields) => txpk_from_fields(&fields).unwrap(),
        _ => panic!("not an object"),
    };
    let mut out: Vec<u8> = Vec::new();
    push_txpk(&txpk, &mut out);
    let text = String::from_utf8(out).unwrap();
    let tree2 = parse_json(text.as_bytes()).unwrap();
    let reparsed = match tree2 {
        JsonValue::Object(fields) => txpk_from_fields(&fields).unwrap(),
        _ => panic!("not an object"),
    };
    assert_eq!(reparsed, txpk);
    // the freq and data tokens come back verbatim
    assert!(text.contains("\"freq\":926.9000244140625"));
    assert!(text.contains("\"data\":\"IHLF2EA+n8BFY1vrCU1k/Vg=\""));
}

#[test]
fn txpk_rejects_oversized_tmst() {
    let json = "{\"codr\":\"4/5\",\"data\":\"IHLF2EA+n8BFY1vrCU1k/Vg=\",\"datr\":\"SF10BW500\",\"freq\":926.9,\"imme\":false,\"ipol\":true,\"modu\":\"LORA\",\"powe\":27,\"rfch\":0,\"size\":17,\"tmst\":4294967296}";
    let tree = parse_json(json.as_bytes()).unwrap();
    match tree {
        JsonValue::Object(fields) => assert!(txpk_from_fields(&fields).is_err()),
        _ => panic!("not an object"),
    }
}

#[test]
fn txpk_rejects_unknown_tmst_word() {
    let json = "{\"codr\":\"4/5\",\"data\":\"IHLF2EA+n8BFY1vrCU1k/Vg=\",\"datr\":\"SF10BW500\",\"freq\":926.9,\"imme\":false,\"ipol\":true,\"modu\":\"LORA\",\"powe\":27,\"rfch\":0,\"size\":17,\"tmst\":\"soon\"}";
    let tree = parse_json(json.as_bytes()).unwrap();
    match tree {
        JsonValue::Object(fields) => assert!(txpk_from_fields(&fields).is_err()),
        _ => panic!("not an object"),
    }
}
