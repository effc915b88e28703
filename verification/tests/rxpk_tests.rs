use semtech_udp::json::parse_json;
use semtech_udp::push_data::{push_body, Data};

#[test]
fn push_data_rxpk_positive_lsnr() {
    let json = "{\"rxpk\":[{\"aesk\":0,\"brd\":263,\"codr\":\"4/5\",\"data\":\"QC65rwEA4w8CaH7LyGf/3+dxzrXkkfEsRCcXbFM=\",\"datr\":\"SF12BW125\",\"freq\":868.5,\"jver\":2,\"modu\":\"LORA\",\"rsig\":[{\"ant\":0,\"chan\":7,\"lsnr\":7.8,\"rssic\":-103}],\"size\":29,\"stat\":1,\"time\":\"2022-03-31T07:51:15.709338Z\",\"tmst\":445296860}]}";
    let tree = parse_json(json.as_bytes()).expect("Error parsing push_data::Data");
    let parsed = Data::from_json(&tree).expect("Error parsing push_data::Data");
    let rxpk = parsed.rxpk.expect("Error parsing push_data::Data");
    assert_eq!(rxpk.len(), 1);
    assert_eq!(rxpk[0].snr().text().as_slice(), b"7.8");
}

#[test]
fn push_data_rxpk_negative_lsnr() {
    let json = "{\"rxpk\":[{\"aesk\":0,\"brd\":261,\"codr\":\"4/5\",\"data\":\"QI8cACQA6iAD3TTei0kPKKyxBA==\",\"datr\":\"SF11BW125\",\"freq\":868.1,\"jver\":2,\"modu\":\"LORA\",\"rsig\":[{\"ant\":0,\"chan\":5,\"lsnr\":-3.5,\"rssic\":-120}],\"size\":19,\"stat\":1,\"time\":\"2022-03-31T07:51:12.631018Z\",\"tmst\":442218540}]}";
    let tree = parse_json(json.as_bytes()).expect("Error parsing push_data::Data");
    let parsed = Data::from_json(&tree).expect("Error parsing push_data::Data");
    let rxpk = parsed.rxpk.expect("Error parsing push_data::Data");
    assert_eq!(rxpk.len(), 1);
    assert_eq!(rxpk[0].snr().text().as_slice(), b"-3.5");
}

#[test]
fn mod_rxpk_positive_lsnr() {
    let json = "{\"rxpk\":[{\"aesk\":0,\"brd\":263,\"codr\":\"4/5\",\"data\":\"QC65rwEA4w8CaH7LyGf/3+dxzrXkkfEsRCcXbFM=\",\"datr\":\"SF12BW125\",\"freq\":868.5,\"jver\":2,\"modu\":\"LORA\",\"rsig\":[{\"ant\":0,\"chan\":7,\"lsnr\":7.8,\"rssic\":-103}],\"size\":29,\"stat\":1,\"time\":\"2022-03-31T07:51:15.709338Z\",\"tmst\":445296860}]}";
    let tree = parse_json(json.as_bytes()).expect("Error parsing push_data::Data");
    let parsed = Data::from_json(&tree).expect("Error parsing push_data::Data");
    let rxpk = parsed.rxpk.expect("Error parsing push_data::Data");
    assert_eq!(rxpk.len(), 1);
    assert_eq!(rxpk[0].snr().text().as_slice(), b"7.8");
    assert_eq!(rxpk[0].channel_rssi(), -103);
}

#[test]
fn mod_rxpk_negative_lsnr() {
    let json = "{\"rxpk\":[{\"aesk\":0,\"brd\":261,\"codr\":\"4/5\",\"data\":\"QI8cACQA6iAD3TTei0kPKKyxBA==\",\"datr\":\"SF11BW125\",\"freq\":868.1,\"jver\":2,\"modu\":\"LORA\",\"rsig\":[{\"ant\":0,\"chan\":5,\"lsnr\":-3.5,\"rssic\":-120}],\"size\":19,\"stat\":1,\"time\":\"2022-03-31T07:51:12.631018Z\",\"tmst\":442218540}]}";
    let tree = parse_json(json.as_bytes()).expect("Error parsing push_data::Data");
    let parsed = Data::from_json(&tree).expect("Error parsing push_data::Data");
    let rxpk = parsed.rxpk.expect("Error parsing push_data::Data");
    assert_eq!(rxpk.len(), 1);
    assert_eq!(rxpk[0].snr().text().as_slice(), b"-3.5");
    assert_eq!(rxpk[0].channel_rssi(), -120);
}

#[test]
fn snr_roundtrip() {
    let json = "{\"rxpk\":[{\"jver\":1,\"tmst\":682631918,\"chan\":0,\"rfch\":0,\"freq\":865.062500,\"mid\": 0,\"stat\":1,\"modu\":\"LORA\",\"datr\":\"SF12BW125\",\"codr\":\"4/5\",\"rssis\":-95,\"lsnr\":6.8,\"foff\":-1300,\"rssi\":-94,\"size\":20,\"data\":\"QNbPNwABAQANyqD8ngiq26Hk4gs=\"}]}";
    let tree = parse_json(json.as_bytes()).expect("Error parsing push_data::Data");
    let parsed = Data::from_json(&tree).expect("Error parsing push_data::Data");
    {
        let rxpk = parsed.rxpk.as_ref().expect("Error parsing push_data::Data");
        assert_eq!(rxpk.len(), 1);
        assert_eq!(rxpk[0].snr().text().as_slice(), b"6.8");
    }
    let mut serialized: Vec<u8> = Vec::new();
    push_body(&parsed, &mut serialized);
    let tree2 = parse_json(&serialized).expect("Error parsing push_data::Data");
    let reparsed = Data::from_json(&tree2).expect("Error parsing push_data::Data");
    let rxpk = reparsed.rxpk.expect("Error parsing push_data::Data");
    assert_eq!(rxpk.len(), 1);
    assert_eq!(rxpk[0].snr().text().as_slice(), b"6.8");
}

#[test]
fn antenna_snr_keeps_exact_decimal_text() {
    // two antennas: the numerically greater SNR wins, text preserved
    let json = "{\"rxpk\":[{\"aesk\":0,\"brd\":0,\"codr\":\"4/5\",\"data\":\"QQ==\",\"datr\":\"SF9BW125\",\"freq\":868.3,\"jver\":2,\"modu\":\"LORA\",\"rsig\":[{\"ant\":0,\"chan\":1,\"lsnr\":-3.5,\"rssic\":-120},{\"ant\":1,\"chan\":1,\"lsnr\":2.25,\"rssic\":-104,\"rssis\":-107}],\"size\":1,\"stat\":1,\"tmst\":7}]}";
    let tree = parse_json(json.as_bytes()).unwrap();
    let parsed = Data::from_json(&tree).unwrap();
    let rxpk = parsed.rxpk.unwrap();
    assert_eq!(rxpk[0].snr().text().as_slice(), b"2.25");
    assert_eq!(rxpk[0].channel_rssi(), -104);
    assert_eq!(rxpk[0].signal_rssi(), Some(-107));
}

#[test]
fn antenna_snr_maximum_decides_on_the_fraction() {
    // equal whole decibels: the larger fraction wins
    let json = "{\"rxpk\":[{\"aesk\":0,\"brd\":0,\"codr\":\"4/5\",\"data\":\"QQ==\",\"datr\":\"SF9BW125\",\"freq\":868.3,\"jver\":2,\"modu\":\"LORA\",\"rsig\":[{\"ant\":0,\"chan\":1,\"lsnr\":1.5,\"rssic\":-120},{\"ant\":1,\"chan\":1,\"lsnr\":1.9,\"rssic\":-118}],\"size\":1,\"stat\":1,\"tmst\":7}]}";
    let tree = parse_json(json.as_bytes()).unwrap();
    let parsed = Data::from_json(&tree).unwrap();
    let rxpk = parsed.rxpk.unwrap();
    assert_eq!(rxpk[0].snr().text().as_slice(), b"1.9");
    assert_eq!(rxpk[0].channel_rssi(), -118);
}

#[test]
fn antenna_rssi_below_the_old_floor_is_reported() {
    // a single very weak antenna reports its own value, not a floor
    let json = "{\"rxpk\":[{\"aesk\":0,\"brd\":0,\"codr\":\"4/5\",\"data\":\"QQ==\",\"datr\":\"SF9BW125\",\"freq\":868.3,\"jver\":2,\"modu\":\"LORA\",\"rsig\":[{\"ant\":0,\"chan\":1,\"lsnr\":-200.5,\"rssic\":-200}],\"size\":1,\"stat\":1,\"tmst\":7}]}";
    let tree = parse_json(json.as_bytes()).unwrap();
    let parsed = Data::from_json(&tree).unwrap();
    let rxpk = parsed.rxpk.unwrap();
    assert_eq!(rxpk[0].snr().text().as_slice(), b"-200.5");
    assert_eq!(rxpk[0].channel_rssi(), -200);
}

#[test]
fn stat_missing_required_field_is_refused() {
    let json = "{\"stat\":{\"lati\":48.3,\"long\":2.9}}";
    let tree = parse_json(json.as_bytes()).unwrap();
    assert!(Data::from_json(&tree).is_err());
}
