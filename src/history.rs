use vstd::prelude::*;
use std::io::Write;

verus! {

/// A UTC instant: whole seconds since the Unix epoch and the nanoseconds
/// past them.
#[derive(Debug, Clone, Copy, PartialEq, Eq)]
pub struct Timestamp {
    pub seconds: i64,
    pub nanos: u32,
}

/// One stored snapshot: when it was captured and its PNG bytes.
#[derive(Debug, Clone)]
pub struct LogoState {
    pub time: Timestamp,
    pub logo: Vec<u8>,
}

/// Why a history payload could not be built.
#[derive(Debug, Clone, Copy, PartialEq, Eq)]
pub enum HistoryError {
    /// A capture time lies outside the calendar range that can be written.
    TimeOutOfRange,
}

/// Instants that chrono can always represent: a nanosecond count below one
/// second and within about 190,000 years of the epoch, well inside chrono's
/// calendar of years -262,143 to 262,142.
pub open spec fn time_in_range(seconds: int, nanos: int) -> bool {
    &&& 0 <= nanos < 1_000_000_000
    &&& -6_000_000_000_000 <= seconds <= 6_000_000_000_000
}

/// The RFC 3339 text (UTC, `Z` suffix, fraction digits only where needed)
/// that chrono writes for an instant, as ASCII bytes.
pub uninterp spec fn rfc3339_of(seconds: int, nanos: int) -> Seq<u8>;

/// The standard base64 text of some bytes, as ASCII bytes.
pub uninterp spec fn base64_of(data: Seq<u8>) -> Seq<u8>;

/// The gzip stream, at the fastest compression level, of some bytes.
pub uninterp spec fn gzip_fast_of(data: Seq<u8>) -> Seq<u8>;

/// Relies on chrono's `DateTime::<Utc>::from_timestamp` and
/// `to_rfc3339_opts(SecondsFormat::AutoSi, true)`, the form chrono's
/// serializer writes: the text depends on the instant alone. `from_timestamp`
/// gives `None` only for a day count outside the calendar or a nanosecond
/// count that is no valid fraction (or leap second), and the writer formats
/// every year, with a sign outside 0 to 9999.
#[verifier::external_body]
fn rfc3339(seconds: i64, nanos: u32) -> (r: Option<Vec<u8>>)
    ensures
        r.is_some() ==> r.unwrap()@ == rfc3339_of(seconds as int, nanos as int),
        time_in_range(seconds as int, nanos as int) ==> r.is_some(),
{
    match chrono::DateTime::<chrono::Utc>::from_timestamp(seconds, nanos) {
        Some(t) => Some(t.to_rfc3339_opts(chrono::SecondsFormat::AutoSi, true).into_bytes()),
        None => None,
    }
}

/// Relies on base64's `encode` (standard alphabet, padded).
#[verifier::external_body]
fn to_base64(data: &Vec<u8>) -> (r: Vec<u8>)
    ensures
        r@ == base64_of(data@),
{
    base64::encode(data).into_bytes()
}

/// Relies on flate2's `GzEncoder` with `Compression::fast()`, writing into
/// a `Vec`: the stream depends on the input alone (no time stamp, a fixed
/// system byte), and writing into a `Vec` cannot fail.
#[verifier::external_body]
fn gzip_fast(data: &Vec<u8>) -> (r: Option<Vec<u8>>)
    ensures
        r.is_some(),
        r.unwrap()@ == gzip_fast_of(data@),
{
    let mut encoder = flate2::write::GzEncoder::new(Vec::new(), flate2::Compression::fast());
    match encoder.write_all(data) {
        Ok(()) => encoder.finish().ok(),
        Err(_) => None,
    }
}

/// The ASCII bytes of a text whose characters are all ASCII.
pub open spec fn ascii_bytes(s: Seq<char>) -> Seq<u8> {
    s.map_values(|c: char| c as u8)
}

/// One record of the history array: `{"time":"<time>","logo":"<logo>"}`.
pub open spec fn record_json(time: Seq<u8>, logo: Seq<u8>) -> Seq<u8> {
    ascii_bytes("{\"time\":\""@) + time + ascii_bytes("\",\"logo\":\""@) + logo + ascii_bytes("\"}"@)
}

/// The first `n` records, separated by commas.
pub open spec fn records_body(rs: Seq<(Seq<u8>, Seq<u8>)>, n: int) -> Seq<u8>
    decreases n,
{
    if n <= 0 {
        Seq::empty()
    } else if n == 1 {
        record_json(rs[0].0, rs[0].1)
    } else {
        records_body(rs, n - 1) + ascii_bytes(","@) + record_json(rs[n - 1].0, rs[n - 1].1)
    }
}

/// A JSON array of records.
pub open spec fn records_json(rs: Seq<(Seq<u8>, Seq<u8>)>) -> Seq<u8> {
    ascii_bytes("["@) + records_body(rs, rs.len() as int) + ascii_bytes("]"@)
}

/// The plain values of a list of (time text, image text) pairs.
pub open spec fn pairs_view(v: Seq<(Vec<u8>, Vec<u8>)>) -> Seq<(Seq<u8>, Seq<u8>)> {
    Seq::new(v.len(), |i: int| (v[i].0@, v[i].1@))
}

/// What a history payload holds, before compression, for these snapshots.
pub open spec fn history_json_of(entries: Seq<LogoState>) -> Seq<u8> {
    records_json(
        Seq::new(
            entries.len(),
            |i: int| (rfc3339_of(entries[i].time.seconds as int, entries[i].time.nanos as int), base64_of(entries[i].logo@)),
        ),
    )
}

fn push_ascii(out: &mut Vec<u8>, s: &str)
    ensures
        final(out)@ == old(out)@ + ascii_bytes(s@),
{
    let n = s.unicode_len();
    let mut i: usize = 0;
    while i < n
        invariant
            n == s@.len(),
            0 <= i <= n,
            out@ == old(out)@ + ascii_bytes(s@.subrange(0, i as int)),
        decreases n - i,
    {
        let c = s.get_char(i);
        out.push(c as u8);
        i = i + 1;
        assert(ascii_bytes(s@.subrange(0, i as int)) =~= ascii_bytes(s@.subrange(0, i - 1)).push(c as u8));
        assert(out@ =~= old(out)@ + ascii_bytes(s@.subrange(0, i as int)));
    }
    assert(s@.subrange(0, n as int) =~= s@);
}

fn push_bytes(out: &mut Vec<u8>, b: &Vec<u8>)
    ensures
        final(out)@ == old(out)@ + b@,
{
    let mut i: usize = 0;
    while i < b.len()
        invariant
            0 <= i <= b@.len(),
            out@ == old(out)@ + b@.subrange(0, i as int),
        decreases b@.len() - i,
    {
        out.push(b[i]);
        i = i + 1;
        assert(out@ =~= old(out)@ + b@.subrange(0, i as int));
    }
    assert(b@.subrange(0, b@.len() as int) =~= b@);
}

/// Writes (time text, image text) pairs as a JSON array of
/// `{"time": ..., "logo": ...}` objects.
pub fn json_records(records: &Vec<(Vec<u8>, Vec<u8>)>) -> (r: Vec<u8>)
    ensures
        r@ == records_json(pairs_view(records@)),
{
    let ghost rs = pairs_view(records@);
    let mut out: Vec<u8> = Vec::new();
    push_ascii(&mut out, "[");
    let mut i: usize = 0;
    while i < records.len()
        invariant
            0 <= i <= records@.len(),
            rs == pairs_view(records@),
            out@ == ascii_bytes("["@) + records_body(rs, i as int),
        decreases records@.len() - i,
    {
        let ghost before = out@;
        if i > 0 {
            push_ascii(&mut out, ",");
        }
        push_ascii(&mut out, "{\"time\":\"");
        push_bytes(&mut out, &records[i].0);
        push_ascii(&mut out, "\",\"logo\":\"");
        push_bytes(&mut out, &records[i].1);
        push_ascii(&mut out, "\"}");
        proof {
            let rec = record_json(rs[i as int].0, rs[i as int].1);
            if i == 0 {
                assert(out@ =~= before + rec);
            } else {
                assert(out@ =~= before + ascii_bytes(","@) + rec);
            }
            assert(out@ =~= ascii_bytes("["@) + records_body(rs, i + 1));
        }
        i = i + 1;
    }
    push_ascii(&mut out, "]");
    out
}

/// Builds the compressed history payload: the snapshots, in the order
/// given, as a JSON array of capture time and base64 image, gzipped at the
/// fastest level.
pub fn get_history_payload(entries: &Vec<LogoState>) -> (r: Result<Vec<u8>, HistoryError>)
    ensures
        r.is_ok() ==> r.unwrap()@ == gzip_fast_of(history_json_of(entries@)),
        (forall|j: int|
            0 <= j < entries@.len() ==> #[trigger] time_in_range(
                entries@[j].time.seconds as int,
                entries@[j].time.nanos as int,
            )) ==> r.is_ok(),
        r.is_err() ==> r == Err::<Vec<u8>, HistoryError>(HistoryError::TimeOutOfRange) && exists|j: int|
            0 <= j < entries@.len() && !#[trigger] time_in_range(
                entries@[j].time.seconds as int,
                entries@[j].time.nanos as int,
            ),
{
    let mut records: Vec<(Vec<u8>, Vec<u8>)> = Vec::new();
    let mut i: usize = 0;
    while i < entries.len()
        invariant
            0 <= i <= entries@.len(),
            records@.len() == i,
            forall|j: int|
                0 <= j < i ==> #[trigger] pairs_view(records@)[j] == (
                    rfc3339_of(entries@[j].time.seconds as int, entries@[j].time.nanos as int),
                    base64_of(entries@[j].logo@),
                ),
        decreases entries@.len() - i,
    {
        let entry = &entries[i];
        let time = match rfc3339(entry.time.seconds, entry.time.nanos) {
            Some(t) => t,
            None => {
                assert(!time_in_range(entries@[i as int].time.seconds as int, entries@[i as int].time.nanos as int));
                return Err(HistoryError::TimeOutOfRange);
            },
        };
        let logo = to_base64(&entry.logo);
        let ghost old_records = records@;
        records.push((time, logo));
        proof {
            assert forall|j: int| 0 <= j < i + 1 implies #[trigger] pairs_view(records@)[j] == (
                rfc3339_of(entries@[j].time.seconds as int, entries@[j].time.nanos as int),
                base64_of(entries@[j].logo@),
            ) by {
                if j < i {
                    assert(records@[j] == old_records[j]);
                    assert(pairs_view(old_records)[j] == pairs_view(records@)[j]);
                }
            }
        }
        i = i + 1;
    }
    let json = json_records(&records);
    proof {
        assert(pairs_view(records@) =~= Seq::new(
            entries@.len(),
            |j: int| (rfc3339_of(entries@[j].time.seconds as int, entries@[j].time.nanos as int), base64_of(entries@[j].logo@)),
        ));
    }
    let compressed = gzip_fast(&json);
    Ok(compressed.unwrap())
}

} // verus!
