//! One attempt at building a two-hop circuit, and its CSV record.

use vstd::prelude::*;
use vstd::string::*;
use crate::clock::{utc_text, utc_time_text, UtcTime};
use crate::text::{push_char, remove_char, without_char};

verus! {

/// The outcome of one attempt to build a circuit from one relay to another.
#[derive(Debug, Clone)]
pub struct LogData {
    /// Fingerprint of the source relay.
    pub source_relay: String,
    /// Fingerprint of the destination relay.
    pub destination_relay: String,
    /// When the attempt was made (UTC).
    pub time: UtcTime,
    /// The error the attempt ended with, as text; `None` when the circuit was built.
    pub err: Option<String>,
}

/// The last field of a record: the error text, or `No error`.
pub open spec fn error_field(err: Option<String>) -> Seq<char> {
    match err {
        Some(e) => e@,
        None => "No error"@,
    }
}

/// Four fields joined by commas.
pub open spec fn csv_record(
    a: Seq<char>,
    b: Seq<char>,
    c: Seq<char>,
    d: Seq<char>,
) -> Seq<char> {
    a + seq![','] + b + seq![','] + c + seq![','] + d
}

/// The comma-separated fields of a line, in order (a line without commas is one field).
pub open spec fn split_fields(s: Seq<char>) -> Seq<Seq<char>>
    decreases s.len(),
{
    if s.len() == 0 {
        seq![Seq::<char>::empty()]
    } else {
        let rest = split_fields(s.drop_first());
        if s[0] == ',' {
            seq![Seq::<char>::empty()] + rest
        } else {
            rest.update(0, seq![s[0]] + rest[0])
        }
    }
}

proof fn lemma_split_fields_nonempty(s: Seq<char>)
    ensures
        split_fields(s).len() >= 1,
    decreases s.len(),
{
    if s.len() > 0 {
        lemma_split_fields_nonempty(s.drop_first());
    }
}

proof fn lemma_split_fields_field(x: Seq<char>, y: Seq<char>)
    requires
        !x.contains(','),
    ensures
        split_fields(x + y) == split_fields(y).update(0, x + split_fields(y)[0]),
    decreases x.len(),
{
    lemma_split_fields_nonempty(y);
    if x.len() == 0 {
        assert(x + y == y);
        assert(x + split_fields(y)[0] == split_fields(y)[0]);
        assert(split_fields(y).update(0, split_fields(y)[0]) == split_fields(y));
    } else {
        let x1 = x.drop_first();
        assert(!x1.contains(',')) by {
            if x1.contains(',') {
                let i = choose|i: int| 0 <= i < x1.len() && x1[i] == ',';
                assert(x[i + 1] == ',');
            }
        }
        assert(x[0] != ',');
        lemma_split_fields_field(x1, y);
        assert((x + y).drop_first() == x1 + y);
        assert((x + y)[0] == x[0]);
        assert(seq![x[0]] + (x1 + split_fields(y)[0]) == x + split_fields(y)[0]);
    }
}

proof fn lemma_split_fields_comma(y: Seq<char>)
    ensures
        split_fields(seq![','] + y) == seq![Seq::<char>::empty()] + split_fields(y),
{
    assert((seq![','] + y).drop_first() == y);
}

/// A record whose first three fields hold no comma splits, at its commas, into
/// those three fields followed by the fields of the last one: the first three
/// commas end the first three fields, and all the rest is the last field.
pub proof fn lemma_csv_record_prefix(a: Seq<char>, b: Seq<char>, c: Seq<char>, d: Seq<char>)
    requires
        !a.contains(','),
        !b.contains(','),
        !c.contains(','),
    ensures
        split_fields(csv_record(a, b, c, d)) == seq![a, b, c] + split_fields(d),
{
    let e = Seq::<char>::empty();
    lemma_split_fields_nonempty(d);
    lemma_split_fields_comma(d);
    let t1 = seq![','] + d;
    lemma_split_fields_field(c, t1);
    let t2 = seq![','] + (c + t1);
    lemma_split_fields_comma(c + t1);
    lemma_split_fields_field(b, t2);
    let t3 = seq![','] + (b + t2);
    lemma_split_fields_comma(b + t2);
    lemma_split_fields_field(a, t3);
    assert(csv_record(a, b, c, d) == a + t3);
    assert(split_fields(t1) == seq![e] + split_fields(d));
    assert(split_fields(c + t1) == seq![c] + split_fields(d));
    assert(split_fields(t2) == seq![e, c] + split_fields(d));
    assert(split_fields(b + t2) == seq![b, c] + split_fields(d));
    assert(split_fields(t3) == seq![e, b, c] + split_fields(d));
}

/// A record of four comma-free fields splits back, at its commas, into exactly
/// those four fields.
pub proof fn lemma_csv_record_fields(a: Seq<char>, b: Seq<char>, c: Seq<char>, d: Seq<char>)
    requires
        !a.contains(','),
        !b.contains(','),
        !c.contains(','),
        !d.contains(','),
    ensures
        split_fields(csv_record(a, b, c, d)) == seq![a, b, c, d],
{
    let e = Seq::<char>::empty();
    lemma_split_fields_field(d, e);
    assert(d + e == d);
    assert(split_fields(e) == seq![e]);
    assert(split_fields(d) == seq![d]);
    lemma_split_fields_comma(d);
    let t1 = seq![','] + d;
    lemma_split_fields_field(c, t1);
    let t2 = seq![','] + (c + t1);
    lemma_split_fields_comma(c + t1);
    lemma_split_fields_field(b, t2);
    let t3 = seq![','] + (b + t2);
    lemma_split_fields_comma(b + t2);
    lemma_split_fields_field(a, t3);
    assert(csv_record(a, b, c, d) == a + t3);
    assert(split_fields(t1) == seq![e, d]);
    assert(split_fields(c + t1) == seq![c, d]);
    assert(split_fields(t2) == seq![e, c, d]);
    assert(split_fields(b + t2) == seq![b, c, d]);
    assert(split_fields(t3) == seq![e, b, c, d]);
}

/// The last field is the whole error text when there is one, and `No error`
/// otherwise.
pub proof fn lemma_error_field(err: Option<String>)
    ensures
        err matches Some(e) ==> error_field(err) == e@,
        err is None ==> error_field(err) == "No error"@,
{
}

impl LogData {
    /// The CSV record of the attempt: source, destination, time, error.
    pub open spec fn csv(&self) -> Seq<char> {
        csv_record(
            self.source_relay@,
            self.destination_relay@,
            utc_text(self.time.spec_secs(), self.time.spec_nanos()),
            error_field(self.err),
        )
    }

    /// The record of an attempt between two relays given by their RSA identities
    /// as printed (`$` followed by hex digits); the fingerprints keep the identity
    /// without any `$`.
    pub fn for_attempt(
        source_identity: &str,
        destination_identity: &str,
        time: UtcTime,
        err: Option<String>,
    ) -> (r: LogData)
        ensures
            r.source_relay@ == without_char(source_identity@, '$'),
            r.destination_relay@ == without_char(destination_identity@, '$'),
            r.time == time,
            r.err == err,
    {
        LogData {
            source_relay: remove_char(source_identity, '$'),
            destination_relay: remove_char(destination_identity, '$'),
            time,
            err,
        }
    }

    /// The attempt as one CSV line: `source,destination,time,error`, where the
    /// time is chrono's UTC rendering and the error reads `No error` when there was none.
    pub fn to_csv(&self) -> (line: String)
        ensures
            line@ == self.csv(),
            self.err matches Some(e) ==> line@ == self.source_relay@ + seq![','] + self.destination_relay@
                + seq![','] + utc_text(self.time.spec_secs(), self.time.spec_nanos()) + seq![','] + e@,
            self.err is None ==> line@ == self.source_relay@ + seq![','] + self.destination_relay@
                + seq![','] + utc_text(self.time.spec_secs(), self.time.spec_nanos()) + seq![',']
                + "No error"@,
            !self.source_relay@.contains(',') && !self.destination_relay@.contains(',') ==> split_fields(
                line@,
            ) == seq![self.source_relay@, self.destination_relay@, utc_text(self.time.spec_secs(), self.time.spec_nanos())] + split_fields(
                error_field(self.err),
            ),
            !self.source_relay@.contains(',') && !self.destination_relay@.contains(',')
                && !error_field(self.err).contains(',') ==> split_fields(line@) == seq![
                self.source_relay@,
                self.destination_relay@,
                utc_text(self.time.spec_secs(), self.time.spec_nanos()),
                error_field(self.err),
            ],
    {
        let mut line = self.source_relay.clone();
        push_char(&mut line, ',');
        line.append(self.destination_relay.as_str());
        push_char(&mut line, ',');
        let time = utc_time_text(self.time.secs(), self.time.nanos());
        line.append(time.as_str());
        push_char(&mut line, ',');
        match &self.err {
            Some(e) => line.append(e.as_str()),
            None => line.append("No error"),
        }
        proof {
            if !self.source_relay@.contains(',') && !self.destination_relay@.contains(',') {
                lemma_csv_record_prefix(
                    self.source_relay@,
                    self.destination_relay@,
                    time@,
                    error_field(self.err),
                );
                assert(line@ == self.csv());
            }
            if !self.source_relay@.contains(',') && !self.destination_relay@.contains(',')
                && !error_field(self.err).contains(',') {
                lemma_csv_record_fields(
                    self.source_relay@,
                    self.destination_relay@,
                    time@,
                    error_field(self.err),
                );
                assert(line@ == self.csv());
                assert(split_fields(line@) == seq![
                    self.source_relay@,
                    self.destination_relay@,
                    utc_text(self.time.spec_secs(), self.time.spec_nanos()),
                    error_field(self.err),
                ]);
            }
        }
        line
    }
}

impl Default for LogData {
    /// An empty record stamped with the current time, read from the system
    /// clock; which instant that is, the clock decides and nothing here states.
    /// A reading chrono cannot hold (after the year 262142) is stamped with the
    /// epoch.
    fn default() -> (r: Self)
        ensures
            r.source_relay@ == Seq::<char>::empty(),
            r.destination_relay@ == Seq::<char>::empty(),
            r.err is None,
    {
        let time = match UtcTime::now() {
            Some(t) => t,
            None => UtcTime::epoch(),
        };
        LogData {
            source_relay: String::new(),
            destination_relay: String::new(),
            time,
            err: None,
        }
    }
}

} // verus!
