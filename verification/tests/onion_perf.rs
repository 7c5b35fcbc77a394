use rpc::clock::UtcTime;
use rpc::onion_perf::{
    decompress_analysis, Circuit, CircuitTotals, Data, OnionPerfAnalysisData, OnionPerfData,
    OnionPerfError, OnionPerfRunnerHost, Tor, HOSTS,
};

fn at(secs: i64, nanos: u32) -> UtcTime {
    UtcTime::from_timestamp(secs, nanos).unwrap()
}

fn circuit(failure: Option<&str>, path: Option<&str>) -> Circuit {
    Circuit {
        failure_reason_local: failure.map(|f| f.to_string()),
        filtered_out: false,
        path: path.map(|p| p.to_string()),
    }
}

fn host_data(circuits: Vec<(&str, Circuit)>) -> Data {
    Data {
        measurement_ip: "192.0.2.1".to_string(),
        tgen: "{}".to_string(),
        tor: Tor {
            circuits: circuits.into_iter().map(|(k, c)| (k.to_string(), c)).collect(),
            streams: None,
            guards: None,
        },
    }
}

fn analysis(entries: Vec<(&str, Data)>) -> OnionPerfAnalysisData {
    OnionPerfAnalysisData {
        data: entries.into_iter().map(|(k, d)| (k.to_string(), d)).collect(),
        filters: None,
        _type: "onionperf".to_string(),
        version: "3.1".to_string(),
    }
}

#[test]
fn url_names_the_day_before() {
    // 2023-04-01 19:49:40 UTC
    let host = OnionPerfRunnerHost::new_at("op-de7a", at(1680378580, 424670303));
    assert_eq!(
        host.url(),
        "https://collector.torproject.org/recent/onionperf/2023-03-31.op-de7a.onionperf.analysis.json.xz"
    );
    assert_eq!(host.host_name(), "op-de7a");
    assert!(host.data().is_none());
    assert!(host.successful_circuits().is_empty());
    assert!(host.failed_circuits().is_empty());
}

#[test]
fn url_before_half_past_two_names_the_day_before_too() {
    // 2023-04-01 01:00:00 UTC
    let host = OnionPerfRunnerHost::new_at("op-hk6a", at(1680310800, 0));
    assert_eq!(
        host.url(),
        "https://collector.torproject.org/recent/onionperf/2023-03-31.op-hk6a.onionperf.analysis.json.xz"
    );
}

#[test]
fn url_pads_month_and_day() {
    // 2023-02-05 12:00:00 UTC
    let host = OnionPerfRunnerHost::new_at("op-us7a", at(1675598400, 0));
    assert_eq!(
        host.url(),
        "https://collector.torproject.org/recent/onionperf/2023-02-04.op-us7a.onionperf.analysis.json.xz"
    );
    // 2023-01-01 00:00:00 UTC: the day before is in the previous year.
    let host = OnionPerfRunnerHost::new_at("op-nl7a", at(1672531200, 0));
    assert_eq!(
        host.url(),
        "https://collector.torproject.org/recent/onionperf/2022-12-31.op-nl7a.onionperf.analysis.json.xz"
    );
}

#[test]
fn url_at_the_extremes_of_the_clock() {
    // The first instant chrono holds: -262143-01-01 00:00:00 UTC.
    let host = OnionPerfRunnerHost::new_at("op-de7a", at(-8_334_601_228_800, 0));
    assert_eq!(
        host.url(),
        "https://collector.torproject.org/recent/onionperf/-262144-12-31.op-de7a.onionperf.analysis.json.xz"
    );
    // The last instant chrono holds: 262142-12-31 23:59:59.999999999 UTC.
    let host = OnionPerfRunnerHost::new_at("op-de7a", at(8_210_266_876_799, 999_999_999));
    assert_eq!(
        host.url(),
        "https://collector.torproject.org/recent/onionperf/262142-12-30.op-de7a.onionperf.analysis.json.xz"
    );
    // Past 2262, where nanosecond timestamps end: 2300-06-15 12:00:00 UTC.
    let host = OnionPerfRunnerHost::new_at("op-de7a", at(10_428_091_200, 0));
    assert_eq!(
        host.url(),
        "https://collector.torproject.org/recent/onionperf/2300-06-14.op-de7a.onionperf.analysis.json.xz"
    );
    // Before the epoch: 1969-12-31 23:59:59.5 UTC.
    let host = OnionPerfRunnerHost::new_at("op-de7a", at(-1, 500_000_000));
    assert_eq!(
        host.url(),
        "https://collector.torproject.org/recent/onionperf/1969-12-30.op-de7a.onionperf.analysis.json.xz"
    );
    // Just before midnight: still the day before that day.
    let host = OnionPerfRunnerHost::new_at("op-de7a", at(1680393599, 999999999));
    assert_eq!(
        host.url(),
        "https://collector.torproject.org/recent/onionperf/2023-03-31.op-de7a.onionperf.analysis.json.xz"
    );
}

#[test]
fn url_in_a_leap_year_march() {
    // 2024-03-01 00:00:00 UTC
    let host = OnionPerfRunnerHost::new_at("op-hk7a", at(1709251200, 0));
    assert_eq!(
        host.url(),
        "https://collector.torproject.org/recent/onionperf/2024-02-29.op-hk7a.onionperf.analysis.json.xz"
    );
}

#[test]
fn new_uses_the_clock() {
    let host = OnionPerfRunnerHost::new("op-hk7a").unwrap();
    assert_eq!(host.host_name(), "op-hk7a");
    assert!(host.url().starts_with("https://collector.torproject.org/recent/onionperf/"));
    assert!(host.url().ends_with(".op-hk7a.onionperf.analysis.json.xz"));
}

#[test]
fn json_file_name_is_host_dot_json() {
    let host = OnionPerfRunnerHost::new_at("op-de7a", at(0, 0));
    assert_eq!(host.json_file_name(), "op-de7a.json");
}

#[test]
fn hosts_are_the_five_measuring_hosts() {
    assert_eq!(HOSTS, ["op-de7a", "op-hk6a", "op-hk7a", "op-nl7a", "op-us7a"]);
}

#[test]
fn host_index_finds_the_first_entry() {
    let doc = analysis(vec![
        ("op-hk6a", host_data(vec![])),
        ("op-de7a", host_data(vec![])),
        ("op-de7a", host_data(vec![])),
    ]);
    assert_eq!(doc.host_index("op-de7a"), Some(1));
    assert_eq!(doc.host_index("op-hk6a"), Some(0));
    assert_eq!(doc.host_index("op-us7a"), None);
}

#[test]
fn record_analysis_sorts_circuits_with_a_path() {
    let mut host = OnionPerfRunnerHost::new_at("op-de7a", at(1680378580, 424670303));
    let doc = analysis(vec![
        ("op-hk6a", host_data(vec![("9", circuit(None, Some("[]")))])),
        (
            "op-de7a",
            host_data(vec![
                ("1", circuit(Some("TIMEOUT"), Some("[[\"$A~a\", 0.5]]"))),
                ("2", circuit(None, Some("[[\"$B~b\", 0.7]]"))),
                ("3", circuit(Some("DESTROYED"), None)),
                ("4", circuit(None, None)),
                ("5", circuit(None, Some("[]"))),
            ]),
        ),
    ]);
    host.record_analysis(doc);
    assert_eq!(host.failed_circuits().len(), 1);
    assert_eq!(
        host.failed_circuits()[0].failure_reason_local.as_deref(),
        Some("TIMEOUT")
    );
    assert_eq!(host.successful_circuits().len(), 2);
    assert_eq!(
        host.successful_circuits()[0].path.as_deref(),
        Some("[[\"$B~b\", 0.7]]")
    );
    assert_eq!(host.successful_circuits()[1].path.as_deref(), Some("[]"));
    let kept = host.data().as_ref().unwrap();
    assert_eq!(kept.data.len(), 2);
    assert_eq!(kept.version, "3.1");
}

#[test]
fn record_analysis_appends_to_earlier_circuits() {
    let mut host = OnionPerfRunnerHost::new_at("op-de7a", at(0, 0));
    host.record_analysis(analysis(vec![(
        "op-de7a",
        host_data(vec![("1", circuit(Some("X"), Some("[]")))]),
    )]));
    host.record_analysis(analysis(vec![(
        "op-de7a",
        host_data(vec![("1", circuit(Some("Y"), Some("[]")))]),
    )]));
    let reasons: Vec<_> = host
        .failed_circuits()
        .iter()
        .map(|c| c.failure_reason_local.clone().unwrap())
        .collect();
    assert_eq!(reasons, vec!["X".to_string(), "Y".to_string()]);
}

#[test]
fn totals_add_up_hosts() {
    let mut host = OnionPerfRunnerHost::new_at("op-de7a", at(0, 0));
    host.record_analysis(analysis(vec![(
        "op-de7a",
        host_data(vec![
            ("1", circuit(Some("X"), Some("[]"))),
            ("2", circuit(None, Some("[]"))),
            ("3", circuit(None, Some("[]"))),
        ]),
    )]));
    let mut totals = CircuitTotals::new();
    assert_eq!((totals.failed, totals.successful), (0, 0));
    totals.add_host(&host);
    totals.add_host(&host);
    assert_eq!((totals.failed, totals.successful), (2, 4));
}

#[test]
fn onion_perf_data_keeps_pushed_hosts_in_order() {
    let mut data = OnionPerfData::from_hosts(vec![]);
    for name in HOSTS {
        data.push_host(OnionPerfRunnerHost::new_at(name, at(0, 0)));
    }
    let names: Vec<&str> = data.all_hosts().iter().map(|h| h.host_name().as_str()).collect();
    assert_eq!(names, HOSTS.to_vec());
}

#[test]
fn onion_perf_data_holds_its_hosts() {
    let data = OnionPerfData::from_hosts(vec![]);
    assert!(data.all_hosts().is_empty());
    let one = OnionPerfData::from_hosts(vec![OnionPerfRunnerHost::new_at("op-de7a", at(0, 0))]);
    assert_eq!(one.all_hosts()[0].host_name(), "op-de7a");
}

#[test]
fn decompress_recovers_xz_data() {
    let plain = b"{\"type\": \"onionperf\", \"version\": \"3.1\"}".to_vec();
    let compressed = lzma::compress(&plain, 6).unwrap();
    assert_ne!(compressed, plain);
    assert_eq!(decompress_analysis(&compressed).unwrap(), plain);
}

#[test]
fn decompress_rejects_data_that_is_not_xz() {
    assert!(matches!(
        decompress_analysis(b"not xz at all"),
        Err(OnionPerfError::Decompression)
    ));
}
