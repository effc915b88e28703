use semtech_udp::{Bandwidth, DataRate, SpreadingFactor};

#[test]
fn test_to_string_sf7() {
    let datarate = DataRate::new(SpreadingFactor::SF7, Bandwidth::BW500);
    assert_eq!(datarate.to_string(), "SF7BW500")
}

#[test]
fn test_to_string_sf10() {
    let datarate = DataRate::new(SpreadingFactor::SF10, Bandwidth::BW125);
    assert_eq!(datarate.to_string(), "SF10BW125")
}

#[test]
fn test_from_str_sf10() {
    let datarate = DataRate::from_str("SF10BW125").unwrap();
    assert_eq!(
        datarate,
        DataRate::new(SpreadingFactor::SF10, Bandwidth::BW125)
    )
}

#[test]
fn test_from_invalid_str() {
    let datarate = DataRate::from_str("12");
    assert!(datarate.is_err())
}

#[test]
fn test_from_str_sf7() {
    let datarate = DataRate::from_str("SF7BW500").unwrap();
    assert_eq!(
        datarate,
        DataRate::new(SpreadingFactor::SF7, Bandwidth::BW500)
    )
}

#[test]
fn data_rate_text_round_trips() {
    let sfs = vec![
        SpreadingFactor::SF5,
        SpreadingFactor::SF6,
        SpreadingFactor::SF7,
        SpreadingFactor::SF8,
        SpreadingFactor::SF9,
        SpreadingFactor::SF10,
        SpreadingFactor::SF11,
        SpreadingFactor::SF12,
    ];
    let bws = vec![
        Bandwidth::BW7,
        Bandwidth::BW10,
        Bandwidth::BW15,
        Bandwidth::BW20,
        Bandwidth::BW31,
        Bandwidth::BW41,
        Bandwidth::BW62,
        Bandwidth::BW125,
        Bandwidth::BW250,
        Bandwidth::BW500,
    ];
    for sf in &sfs {
        for bw in &bws {
            let dr = DataRate::new(*sf, *bw);
            let text = dr.to_string();
            assert_eq!(DataRate::from_str(&text).unwrap(), dr);
        }
    }
}

#[test]
fn four_letter_spreading_factor_with_short_bandwidth_parses() {
    assert_eq!(
        DataRate::from_str("SF10BW62").unwrap(),
        DataRate::new(SpreadingFactor::SF10, Bandwidth::BW62)
    );
    assert_eq!(
        DataRate::from_str("SF12BW15").unwrap(),
        DataRate::new(SpreadingFactor::SF12, Bandwidth::BW15)
    );
}

#[test]
fn default_data_rate_matches_reference_forwarder() {
    let dr: DataRate = Default::default();
    assert_eq!(dr, DataRate::new(SpreadingFactor::SF7, Bandwidth::BW250));
}
