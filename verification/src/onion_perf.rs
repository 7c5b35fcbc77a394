//! OnionPerf analysis data: where each measuring host's data is fetched from,
//! and how its circuits are sorted into successful and failed ones.

use vstd::prelude::*;
use vstd::string::*;
use lzma::LzmaError;
use crate::calendar::{
    date_before, date_of_day, day_before, day_number, lemma_date_of_day, lemma_previous_date,
    lemma_year_lower_bound, valid_date, lemma_dates_grow, lemma_next_day, next_date,
};
use crate::clock::{
    epoch_day, utc_day_of, utc_month_of, utc_year_of, UtcTime,
};
use crate::partition::lemma_push_contains;
use crate::text::{decimal_two, push_char, push_decimal_two, push_signed_decimal, signed_decimal};

verus! {

/// The OnionPerf hosts whose measurements are read.
pub const HOSTS: [&'static str; 5] = ["op-de7a", "op-hk6a", "op-hk7a", "op-nl7a", "op-us7a"];

/// One circuit that a measuring host's Tor controller logged.
#[derive(Debug)]
pub struct Circuit {
    /// The local reason the circuit failed, when it failed.
    pub failure_reason_local: Option<String>,
    /// Whether OnionPerf filtered the circuit out.
    pub filtered_out: bool,
    /// The circuit's path as JSON text, when it has one.
    pub path: Option<String>,
}

impl Clone for Circuit {
    fn clone(&self) -> (r: Self)
        ensures
            r == *self,
    {
        Circuit {
            failure_reason_local: match &self.failure_reason_local {
                Some(reason) => Some(reason.clone()),
                None => None,
            },
            filtered_out: self.filtered_out,
            path: match &self.path {
                Some(path) => Some(path.clone()),
                None => None,
            },
        }
    }
}

/// Metadata from a measuring host's Tor controller logs.
#[derive(Debug, Clone)]
pub struct Tor {
    /// The circuits by identifier, in the order they were read.
    pub circuits: Vec<(String, Circuit)>,
    /// Stream data as JSON text (not read from analysis files).
    pub streams: Option<String>,
    /// Guard data as JSON text (not read from analysis files).
    pub guards: Option<String>,
}

/// The measurements of one host.
#[derive(Debug, Clone)]
pub struct Data {
    /// Public IP address of the measuring host.
    pub measurement_ip: String,
    /// Measurement data from client-side TGen logs, as JSON text.
    pub tgen: String,
    /// Metadata from client-side Tor controller logs.
    pub tor: Tor,
}

/// An OnionPerf analysis document (version 3.1).
#[derive(Debug, Clone)]
pub struct OnionPerfAnalysisData {
    /// The measurements by host name, in the order they were read.
    pub data: Vec<(String, Data)>,
    /// Filters as JSON text (not read from analysis files).
    pub filters: Option<String>,
    /// Document type.
    pub _type: String,
    /// Document version.
    pub version: String,
}

/// Why the data of a host could not be read.
#[derive(Debug)]
pub enum OnionPerfError {
    /// The downloaded file is not valid XZ data, or could not be decompressed.
    Decompression,
}

/// A circuit with a path: OnionPerf counts it as built or failed.
pub open spec fn has_path(c: Circuit) -> bool {
    c.path is Some
}

/// A circuit with a path and a local failure reason.
pub open spec fn is_failed(c: Circuit) -> bool {
    c.path is Some && c.failure_reason_local is Some
}

/// A circuit with a path and no local failure reason.
pub open spec fn is_successful(c: Circuit) -> bool {
    c.path is Some && c.failure_reason_local is None
}

/// The failed circuits among `circuits`, in order.
pub open spec fn failed_of(circuits: Seq<(String, Circuit)>) -> Seq<Circuit>
    decreases circuits.len(),
{
    if circuits.len() == 0 {
        seq![]
    } else if is_failed(circuits.last().1) {
        failed_of(circuits.drop_last()).push(circuits.last().1)
    } else {
        failed_of(circuits.drop_last())
    }
}

/// The successful circuits among `circuits`, in order.
pub open spec fn successful_of(circuits: Seq<(String, Circuit)>) -> Seq<Circuit>
    decreases circuits.len(),
{
    if circuits.len() == 0 {
        seq![]
    } else if is_successful(circuits.last().1) {
        successful_of(circuits.drop_last()).push(circuits.last().1)
    } else {
        successful_of(circuits.drop_last())
    }
}

/// How many of `circuits` have a path.
pub open spec fn path_count(circuits: Seq<(String, Circuit)>) -> nat
    decreases circuits.len(),
{
    if circuits.len() == 0 {
        0
    } else if has_path(circuits.last().1) {
        path_count(circuits.drop_last()) + 1
    } else {
        path_count(circuits.drop_last())
    }
}

/// The position of the first entry named `host`; the length when there is none.
pub open spec fn host_position(entries: Seq<(String, Data)>, host: Seq<char>) -> int
    decreases entries.len(),
{
    if entries.len() == 0 {
        0
    } else if entries[0].0@ == host {
        0
    } else {
        host_position(entries.drop_first(), host) + 1
    }
}

/// The address of the compressed analysis file of `host` for the given date.
pub open spec fn onionperf_url(host: Seq<char>, year: int, month: int, day: int) -> Seq<char> {
    "https://collector.torproject.org/recent/onionperf/"@ + signed_decimal(year) + seq!['-']
        + decimal_two(month as nat) + seq!['-'] + decimal_two(day as nat) + seq!['.'] + host
        + ".onionperf.analysis.json.xz"@
}

/// The date of the analysis file fetched at the instant `now` (in seconds
/// since the epoch): the UTC calendar day before the day of `now`.
pub open spec fn download_date(now: int) -> (int, int, int) {
    date_of_day(epoch_day(now) - 1)
}

/// The address of the analysis file of `host` fetched at the instant `now`.
pub open spec fn onionperf_url_at(host: Seq<char>, now: int) -> Seq<char> {
    let date = download_date(now);
    onionperf_url(host, date.0, date.1, date.2)
}

/// The file fetched at `now` is that of the calendar day just before the UTC
/// day of `now`, whether or not `now` is past 02:30.
pub proof fn lemma_download_date_is_previous_day(now: int)
    ensures
        next_date(download_date(now)) == date_of_day(epoch_day(now)),
{
    lemma_next_day(epoch_day(now) - 1);
}

/// A later instant never fetches the file of an earlier date.
pub proof fn lemma_download_dates_grow(now1: int, now2: int)
    requires
        now1 <= now2,
    ensures
        !date_before(download_date(now2), download_date(now1)),
{
    assert(epoch_day(now1) <= epoch_day(now2)) by (nonlinear_arith)
        requires
            now1 <= now2;
    lemma_dates_grow(epoch_day(now1) - 1, epoch_day(now2) - 1);
}

proof fn lemma_host_position_bounds(entries: Seq<(String, Data)>, host: Seq<char>)
    ensures
        0 <= host_position(entries, host) <= entries.len(),
        host_position(entries, host) < entries.len() ==> entries[host_position(entries, host)].0@ == host,
        forall|k: int| 0 <= k < host_position(entries, host) ==> entries[k].0@ != host,
    decreases entries.len(),
{
    if entries.len() > 0 && entries[0].0@ != host {
        let rest = entries.drop_first();
        lemma_host_position_bounds(rest, host);
        assert forall|k: int| 0 <= k < host_position(entries, host) implies entries[k].0@ != host by {
            if k > 0 {
                assert(entries[k] == rest[k - 1]);
            }
        }
    }
}

/// Sorting the circuits of a host splits those with a path in two: every
/// failed circuit lands among the failed ones, every successful one among the
/// successful ones, nothing else lands in either list, and the two lists
/// together are as long as the number of circuits with a path.
pub proof fn lemma_circuits_partitioned(circuits: Seq<(String, Circuit)>)
    ensures
        failed_of(circuits).len() + successful_of(circuits).len() == path_count(circuits),
        forall|i: int| 0 <= i < failed_of(circuits).len() ==> is_failed(#[trigger] failed_of(circuits)[i]),
        forall|i: int|
            0 <= i < successful_of(circuits).len() ==> is_successful(#[trigger] successful_of(circuits)[i]),
        forall|k: int|
            0 <= k < circuits.len() && is_failed(#[trigger] circuits[k].1) ==> failed_of(circuits).contains(
                circuits[k].1,
            ),
        forall|k: int|
            0 <= k < circuits.len() && is_successful(#[trigger] circuits[k].1) ==> successful_of(
                circuits,
            ).contains(circuits[k].1),
    decreases circuits.len(),
{
    if circuits.len() > 0 {
        let prev = circuits.drop_last();
        let c = circuits.last().1;
        lemma_circuits_partitioned(prev);
        lemma_push_contains(failed_of(prev), c, c);
        lemma_push_contains(successful_of(prev), c, c);
        assert forall|k: int| 0 <= k < circuits.len() && is_failed(#[trigger] circuits[k].1) implies failed_of(
            circuits,
        ).contains(circuits[k].1) by {
            if k < prev.len() {
                assert(prev[k] == circuits[k]);
                if is_failed(c) {
                    lemma_push_contains(failed_of(prev), c, circuits[k].1);
                }
            }
        }
        assert forall|k: int| 0 <= k < circuits.len() && is_successful(#[trigger] circuits[k].1) implies successful_of(
            circuits,
        ).contains(circuits[k].1) by {
            if k < prev.len() {
                assert(prev[k] == circuits[k]);
                if is_successful(c) {
                    lemma_push_contains(successful_of(prev), c, circuits[k].1);
                }
            }
        }
    }
}

/// No two entries share a name, as in the analysis file, where the names are
/// the keys of a JSON object.
pub open spec fn unique_names<T>(entries: Seq<(String, T)>) -> bool {
    forall|i: int, j: int|
        0 <= i < entries.len() && 0 <= j < entries.len() && i != j ==> entries[i].0@ != entries[j].0@
}

/// With unique names, the position that lookups use is the only entry with
/// that name; which duplicate comes first matters only for documents that no
/// analysis file produces.
pub proof fn lemma_unique_host_position(entries: Seq<(String, Data)>, host: Seq<char>, k: int)
    requires
        unique_names(entries),
        0 <= k < entries.len(),
        entries[k].0@ == host,
    ensures
        host_position(entries, host) == k,
{
    lemma_host_position_bounds(entries, host);
    let p = host_position(entries, host);
    if p < k {
        assert(entries[p].0@ != host);
    } else if p > k {
        assert(entries[k].0@ != host);
    }
}

/// Sorting looks at the path and the local failure reason alone: a circuit
/// with a path lands among the failed circuits exactly when it has a local
/// failure reason and among the successful ones exactly when it has none,
/// whatever else it holds (such as `filtered_out`); everything sorted has a
/// path, failed circuits a reason and successful ones none.
pub proof fn lemma_sorting_by_failure_reason(circuits: Seq<(String, Circuit)>)
    ensures
        forall|k: int|
            0 <= k < circuits.len() && (#[trigger] circuits[k]).1.path is Some
                && circuits[k].1.failure_reason_local is Some ==> failed_of(circuits).contains(circuits[k].1)
                && !successful_of(circuits).contains(circuits[k].1),
        forall|k: int|
            0 <= k < circuits.len() && (#[trigger] circuits[k]).1.path is Some
                && circuits[k].1.failure_reason_local is None ==> successful_of(circuits).contains(
                circuits[k].1,
            ) && !failed_of(circuits).contains(circuits[k].1),
        forall|i: int|
            0 <= i < failed_of(circuits).len() ==> (#[trigger] failed_of(circuits)[i]).path is Some
                && failed_of(circuits)[i].failure_reason_local is Some,
        forall|i: int|
            0 <= i < successful_of(circuits).len() ==> (#[trigger] successful_of(circuits)[i]).path is Some
                && successful_of(circuits)[i].failure_reason_local is None,
{
    lemma_circuits_partitioned(circuits);
    assert forall|k: int|
        0 <= k < circuits.len() && (#[trigger] circuits[k]).1.path is Some
            && circuits[k].1.failure_reason_local is Some implies failed_of(circuits).contains(circuits[k].1)
            && !successful_of(circuits).contains(circuits[k].1) by {
        assert(is_failed(circuits[k].1));
        if successful_of(circuits).contains(circuits[k].1) {
            let i = choose|i: int|
                0 <= i < successful_of(circuits).len() && successful_of(circuits)[i] == circuits[k].1;
            assert(is_successful(successful_of(circuits)[i]));
        }
    }
    assert forall|k: int|
        0 <= k < circuits.len() && (#[trigger] circuits[k]).1.path is Some
            && circuits[k].1.failure_reason_local is None implies successful_of(circuits).contains(
            circuits[k].1,
        ) && !failed_of(circuits).contains(circuits[k].1) by {
        assert(is_successful(circuits[k].1));
        if failed_of(circuits).contains(circuits[k].1) {
            let i = choose|i: int| 0 <= i < failed_of(circuits).len() && failed_of(circuits)[i] == circuits[k].1;
            assert(is_failed(failed_of(circuits)[i]));
        }
    }
    assert forall|i: int| 0 <= i < failed_of(circuits).len() implies (#[trigger] failed_of(circuits)[i]).path is Some
        && failed_of(circuits)[i].failure_reason_local is Some by {
        assert(is_failed(failed_of(circuits)[i]));
    }
    assert forall|i: int|
        0 <= i < successful_of(circuits).len() implies (#[trigger] successful_of(circuits)[i]).path is Some
        && successful_of(circuits)[i].failure_reason_local is None by {
        assert(is_successful(successful_of(circuits)[i]));
    }
}

impl OnionPerfAnalysisData {
    /// Whether the document holds measurements of `host`.
    pub open spec fn has_host(&self, host: Seq<char>) -> bool {
        host_position(self.data@, host) < self.data@.len()
    }

    /// The circuits of the first measurements named `host`.
    pub open spec fn circuits_of(&self, host: Seq<char>) -> Seq<(String, Circuit)> {
        self.data@[host_position(self.data@, host)].1.tor.circuits@
    }

    /// The position of the measurements of `host`, if the document holds any.
    pub fn host_index(&self, host: &str) -> (r: Option<usize>)
        ensures
            r is Some <==> self.has_host(host@),
            r matches Some(i) ==> i == host_position(self.data@, host@),
    {
        proof {
            lemma_host_position_bounds(self.data@, host@);
        }
        let wanted = String::from_str(host);
        let mut k: usize = 0;
        while k < self.data.len()
            invariant
                k <= self.data@.len(),
                wanted@ == host@,
                0 <= host_position(self.data@, host@) <= self.data@.len(),
                host_position(self.data@, host@) < self.data@.len()
                    ==> self.data@[host_position(self.data@, host@)].0@ == host@,
                forall|q: int| 0 <= q < host_position(self.data@, host@) ==> self.data@[q].0@ != host@,
                forall|q: int| 0 <= q < k ==> self.data@[q].0@ != host@,
            decreases self.data@.len() - k,
        {
            if self.data[k].0 == wanted {
                return Some(k);
            }
            k += 1;
        }
        None
    }
}


/// An OnionPerf measuring host: where its data is fetched from, the data once
/// read, and its circuits with a path, sorted by outcome.
#[derive(Debug, Clone)]
pub struct OnionPerfRunnerHost {
    /// Name of the host.
    host_name: String,
    /// The address of the OnionPerf data produced by the host.
    url: String,
    /// The data of the host, once read.
    data: Option<OnionPerfAnalysisData>,
    /// The circuits (with a path) that OnionPerf marked successful.
    successful_circuits: Vec<Circuit>,
    /// The circuits (with a path) that OnionPerf marked failed.
    failed_circuits: Vec<Circuit>,
}

impl OnionPerfRunnerHost {
    /// Name of the host.
    pub closed spec fn spec_host_name(&self) -> Seq<char> {
        self.host_name@
    }

    /// The address of the host's data.
    pub closed spec fn spec_url(&self) -> Seq<char> {
        self.url@
    }

    /// The data read so far.
    pub closed spec fn spec_data(&self) -> Option<OnionPerfAnalysisData> {
        self.data
    }

    /// The successful circuits collected so far.
    pub closed spec fn spec_successful(&self) -> Seq<Circuit> {
        self.successful_circuits@
    }

    /// The failed circuits collected so far.
    pub closed spec fn spec_failed(&self) -> Seq<Circuit> {
        self.failed_circuits@
    }

    /// A host named `host` with nothing read yet, whose address is that of
    /// the data for the UTC day before `now` (in seconds since the epoch).
    pub open spec fn is_fresh(&self, host: Seq<char>, now: int) -> bool {
        &&& self.spec_host_name() == host
        &&& self.spec_url() == onionperf_url_at(host, now)
        &&& self.spec_data() is None
        &&& self.spec_successful().len() == 0
        &&& self.spec_failed().len() == 0
    }

    /// The host `host_name` as seen at the instant `now`: its address names the
    /// data of the UTC calendar day before the day of `now`, whether or not
    /// `now` is past 02:30 of its own day.
    pub fn new_at(host_name: &str, now: UtcTime) -> (r: Self)
        ensures
            r.is_fresh(host_name@, now.spec_secs() as int),
    {
        let secs = now.secs();
        let today_year = utc_year_of(secs);
        let today_month = utc_month_of(secs);
        let today_day = utc_day_of(secs);
        proof {
            assert(epoch_day(secs as int) >= -146_000_000) by (nonlinear_arith)
                requires
                    secs >= -8_334_601_228_800int;
            lemma_year_lower_bound((today_year as int, today_month as int, today_day as int));
        }
        let (year, month, day) = day_before(today_year, today_month, today_day);
        proof {
            let today = (today_year as int, today_month as int, today_day as int);
            lemma_previous_date(today);
            lemma_date_of_day(epoch_day(secs as int) - 1);
            let a = (year as int, month as int, day as int);
            assert(valid_date(a.0, a.1, a.2));
            assert(day_number(a.0, a.1, a.2) == epoch_day(secs as int) - 1);
            assert(a == download_date(secs as int));
        }

        let mut url = String::from_str("https://collector.torproject.org/recent/onionperf/");
        push_signed_decimal(&mut url, year);
        push_char(&mut url, '-');
        push_decimal_two(&mut url, month);
        push_char(&mut url, '-');
        push_decimal_two(&mut url, day);
        push_char(&mut url, '.');
        url.append(host_name);
        url.append(".onionperf.analysis.json.xz");
        assert(url@ == onionperf_url(host_name@, year as int, month as int, day as int));

        OnionPerfRunnerHost {
            host_name: String::from_str(host_name),
            url,
            data: None,
            successful_circuits: Vec::new(),
            failed_circuits: Vec::new(),
        }
    }

    /// The host `host_name` as seen now, with the clock read through
    /// `UtcTime::now`. `None` only when chrono cannot hold the reading (after
    /// the year 262142), where `Utc::now` panics.
    pub fn new(host_name: &str) -> (r: Option<Self>)
        ensures
            r matches Some(h) ==> exists|now: int| #[trigger] h.is_fresh(host_name@, now),
    {
        match UtcTime::now() {
            Some(now) => {
                let h = Self::new_at(host_name, now);
                assert(h.is_fresh(host_name@, now.spec_secs() as int));
                Some(h)
            },
            None => None,
        }
    }

    /// Name of the host.
    pub fn host_name(&self) -> (r: &String)
        ensures
            r@ == self.spec_host_name(),
    {
        &self.host_name
    }

    /// The address of the host's compressed analysis file.
    pub fn url(&self) -> (r: &String)
        ensures
            r@ == self.spec_url(),
    {
        &self.url
    }

    /// The data read so far.
    pub fn data(&self) -> (r: &Option<OnionPerfAnalysisData>)
        ensures
            *r == self.spec_data(),
    {
        &self.data
    }

    /// The successful circuits collected so far.
    pub fn successful_circuits(&self) -> (r: &Vec<Circuit>)
        ensures
            r@ == self.spec_successful(),
    {
        &self.successful_circuits
    }

    /// The failed circuits collected so far.
    pub fn failed_circuits(&self) -> (r: &Vec<Circuit>)
        ensures
            r@ == self.spec_failed(),
    {
        &self.failed_circuits
    }

    /// The name of the file the decompressed data is saved to: `<host>.json`.
    pub fn json_file_name(&self) -> (r: String)
        ensures
            r@ == self.spec_host_name() + ".json"@,
    {
        let mut name = self.host_name.clone();
        name.append(".json");
        name
    }

    /// Takes in the analysis document read for this host: every circuit of the
    /// host's measurements that has a path is added, in order, to the failed
    /// circuits when it has a local failure reason and to the successful ones
    /// otherwise; circuits without a path are left out. The document is kept.
    pub fn record_analysis(&mut self, analysis: OnionPerfAnalysisData)
        requires
            analysis.has_host(old(self).spec_host_name()),
        ensures
            final(self).spec_failed() == old(self).spec_failed() + failed_of(
                analysis.circuits_of(old(self).spec_host_name()),
            ),
            final(self).spec_successful() == old(self).spec_successful() + successful_of(
                analysis.circuits_of(old(self).spec_host_name()),
            ),
            final(self).spec_data() == Some(analysis),
            final(self).spec_host_name() == old(self).spec_host_name(),
            final(self).spec_url() == old(self).spec_url(),
    {
        let index = analysis.host_index(self.host_name.as_str()).unwrap();
        let circuits = &analysis.data[index].1.tor.circuits;
        let ghost name_before = self.host_name;
        let ghost url_before = self.url;
        let ghost failed_before = self.failed_circuits@;
        let ghost successful_before = self.successful_circuits@;
        let mut k: usize = 0;
        while k < circuits.len()
            invariant
                k <= circuits@.len(),
                self.host_name == name_before,
                self.url == url_before,
                self.failed_circuits@ == failed_before + failed_of(circuits@.take(k as int)),
                self.successful_circuits@ == successful_before + successful_of(circuits@.take(k as int)),
            decreases circuits@.len() - k,
        {
            let circuit = &circuits[k].1;
            assert(circuits@.take(k + 1).drop_last() == circuits@.take(k as int));
            if circuit.path.is_some() {
                if circuit.failure_reason_local.is_some() {
                    self.failed_circuits.push(circuit.clone());
                } else {
                    self.successful_circuits.push(circuit.clone());
                }
            }
            k += 1;
        }
        assert(circuits@.take(circuits@.len() as int) == circuits@);
        self.data = Some(analysis);
    }
}

/// The error type of `rust-lzma`, carried through opaque.
#[verifier::external_type_specification]
#[verifier::external_body]
pub struct ExLzmaError(LzmaError);

/// What liblzma's automatic decoder makes of `compressed`: the decoded bytes of
/// a complete `.xz` (or legacy `.lzma`) stream, or `None` when it rejects the input.
pub uninterp spec fn xz_decoded(compressed: Seq<u8>) -> Option<Seq<u8>>;

/// `lzma::decompress` (rust-lzma over liblzma's `lzma_auto_decoder`, with no
/// memory limit, reading from the slice): decodes the whole input. Whether it
/// succeeds, and what it returns, are named `xz_decoded`; decoding depends on
/// the input bytes alone (running out of memory aborts the process).
#[verifier::external_body]
fn xz_decompress(compressed: &[u8]) -> (r: Result<Vec<u8>, LzmaError>)
    ensures
        r is Ok <==> xz_decoded(compressed@) is Some,
        r matches Ok(v) ==> xz_decoded(compressed@) == Some(v@),
{
    lzma::decompress(compressed)
}

/// Decompresses a downloaded analysis file: its decoding when liblzma accepts
/// it, and `Decompression` when it does not.
pub fn decompress_analysis(compressed: &[u8]) -> (r: Result<Vec<u8>, OnionPerfError>)
    ensures
        r is Ok <==> xz_decoded(compressed@) is Some,
        r matches Ok(v) ==> xz_decoded(compressed@) == Some(v@),
        r matches Err(e) ==> e == OnionPerfError::Decompression,
{
    match xz_decompress(compressed) {
        Ok(v) => Ok(v),
        Err(_) => Err(OnionPerfError::Decompression),
    }
}

/// Running totals of the circuits sorted over several hosts.
#[derive(Debug, Clone, Copy)]
pub struct CircuitTotals {
    /// Failed circuits so far.
    pub failed: usize,
    /// Successful circuits so far.
    pub successful: usize,
}

impl CircuitTotals {
    /// No circuits yet.
    pub fn new() -> (r: Self)
        ensures
            r.failed == 0,
            r.successful == 0,
    {
        CircuitTotals { failed: 0, successful: 0 }
    }

    /// Counts in the circuits of one more host.
    pub fn add_host(&mut self, host: &OnionPerfRunnerHost)
        requires
            old(self).failed + host.spec_failed().len() <= usize::MAX,
            old(self).successful + host.spec_successful().len() <= usize::MAX,
        ensures
            final(self).failed == old(self).failed + host.spec_failed().len(),
            final(self).successful == old(self).successful + host.spec_successful().len(),
    {
        self.failed = self.failed + host.failed_circuits().len();
        self.successful = self.successful + host.successful_circuits().len();
    }
}

/// The OnionPerf data of all hosts.
#[derive(Debug, Clone)]
pub struct OnionPerfData {
    /// List of all OnionPerf host based data, in the order the hosts were surveyed.
    all_hosts: Vec<OnionPerfRunnerHost>,
}

impl OnionPerfData {
    /// The hosts held.
    pub closed spec fn spec_all_hosts(&self) -> Seq<OnionPerfRunnerHost> {
        self.all_hosts@
    }

    /// The data of the given hosts.
    pub fn from_hosts(all_hosts: Vec<OnionPerfRunnerHost>) -> (r: Self)
        ensures
            r.spec_all_hosts() == all_hosts@,
    {
        OnionPerfData { all_hosts }
    }

    /// Keeps one more surveyed host, after those already held.
    pub fn push_host(&mut self, host: OnionPerfRunnerHost)
        ensures
            final(self).spec_all_hosts() == old(self).spec_all_hosts().push(host),
    {
        self.all_hosts.push(host);
    }

    /// The hosts held.
    pub fn all_hosts(&self) -> (r: &Vec<OnionPerfRunnerHost>)
        ensures
            r@ == self.spec_all_hosts(),
    {
        &self.all_hosts
    }
}

} // verus!
