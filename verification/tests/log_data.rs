use rpc::clock::UtcTime;
use rpc::log_data::LogData;

fn at(secs: i64, nanos: u32) -> UtcTime {
    UtcTime::from_timestamp(secs, nanos).unwrap()
}

fn sample(err: Option<String>) -> LogData {
    LogData {
        source_relay: "11ac67307b362b77569af314a9a7a06b9195df19".to_string(),
        destination_relay: "9e627928dfe5dd5e518a452a503d40880115dfa1".to_string(),
        time: at(1680378580, 424670303),
        err,
    }
}

#[test]
fn to_csv_without_error_reads_no_error() {
    assert_eq!(
        sample(None).to_csv(),
        "11ac67307b362b77569af314a9a7a06b9195df19,9e627928dfe5dd5e518a452a503d40880115dfa1,2023-04-01 19:49:40.424670303 UTC,No error"
    );
}

#[test]
fn to_csv_with_error_ends_with_the_error_text() {
    let line = sample(Some("Circuit took too long to build".to_string())).to_csv();
    assert_eq!(
        line,
        "11ac67307b362b77569af314a9a7a06b9195df19,9e627928dfe5dd5e518a452a503d40880115dfa1,2023-04-01 19:49:40.424670303 UTC,Circuit took too long to build"
    );
}

#[test]
fn to_csv_splits_back_into_four_fields() {
    let line = sample(Some("Problem opening a channel to [scrubbed]".to_string())).to_csv();
    let fields: Vec<&str> = line.split(',').collect();
    assert_eq!(
        fields,
        vec![
            "11ac67307b362b77569af314a9a7a06b9195df19",
            "9e627928dfe5dd5e518a452a503d40880115dfa1",
            "2023-04-01 19:49:40.424670303 UTC",
            "Problem opening a channel to [scrubbed]",
        ]
    );
}

#[test]
fn to_csv_renders_whole_seconds_and_the_epoch() {
    let mut log = sample(None);
    log.time = at(0, 0);
    log.source_relay = String::new();
    log.destination_relay = String::new();
    assert_eq!(log.to_csv(), ",,1970-01-01 00:00:00 UTC,No error");
}

#[test]
fn for_attempt_strips_the_dollar_of_identities() {
    let log = LogData::for_attempt("$11AC67", "$$9E$62", at(7, 0), Some("boom".to_string()));
    assert_eq!(log.source_relay, "11AC67");
    assert_eq!(log.destination_relay, "9E62");
    assert_eq!((log.time.secs(), log.time.nanos()), (7, 0));
    assert_eq!(log.err, Some("boom".to_string()));
}

#[test]
fn for_attempt_keeps_identities_without_dollar() {
    let log = LogData::for_attempt("abc", "", at(0, 0), None);
    assert_eq!(log.source_relay, "abc");
    assert_eq!(log.destination_relay, "");
    assert_eq!(log.err, None);
}

#[test]
fn default_is_empty_and_stamped_now() {
    let log = LogData::default();
    assert_eq!(log.source_relay, "");
    assert_eq!(log.destination_relay, "");
    assert_eq!(log.err, None);
    // 2023-01-01T00:00:00Z, well before any run of these tests.
    assert!(log.time.secs() >= 1672531200);
}

#[test]
fn to_csv_renders_instants_past_2262_and_before_the_epoch() {
    let mut log = sample(None);
    log.time = at(10_428_091_200, 0);
    assert!(log.to_csv().contains(",2300-06-15 12:00:00 UTC,"));
    log.time = at(-1, 500_000_000);
    assert!(log.to_csv().contains(",1969-12-31 23:59:59.500 UTC,"));
}

#[test]
fn to_csv_renders_the_extremes_chrono_holds() {
    let mut log = sample(None);
    log.time = at(-8_334_601_228_800, 0);
    assert!(log.to_csv().contains(",-262143-01-01 00:00:00 UTC,"));
    log.time = at(8_210_266_876_799, 999_999_999);
    assert!(log.to_csv().contains(",+262142-12-31 23:59:59.999999999 UTC,"));
}
