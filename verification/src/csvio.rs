//! Delimited text in and out of memory. Parsing and escaping follow the
//! csv crate behind trusted items: parsing is comma-delimited with
//! flexible record lengths, fields trimmed of surrounding whitespace and
//! no header row; emission quotes fields only where needed. The record
//! loop on the emission side is verified.

use vstd::prelude::*;
use crate::error::ConvError;

verus! {

/// A delimited-text sink accumulating records in memory. The csv crate's
/// writer it holds carries a trait bound Verus does not take, so the whole
/// struct is opaque; [`sink_rows`] names what it holds.
#[verifier::external_body]
pub struct CsvSink {
    inner: csv::Writer<Vec<u8>>,
}

/// What parsing `data` as delimited text yields: the rows of trimmed
/// fields, or `None` where some record cannot be tokenized. A function of
/// the bytes alone.
pub uninterp spec fn csv_parse(data: Seq<u8>) -> Option<Seq<Seq<Seq<char>>>>;

/// The delimited-text encoding of `rows`, with the quoting the format
/// needs. A function of the rows alone.
pub uninterp spec fn csv_encode(rows: Seq<Seq<Seq<char>>>) -> Seq<u8>;

/// The records so far written into a delimited-text sink.
pub uninterp spec fn sink_rows(w: CsvSink) -> Seq<Seq<Seq<char>>>;

/// Relies on csv::Reader: reads every comma-delimited record of the bytes
/// in order — flexible record lengths, each field trimmed of surrounding
/// whitespace, no header row — and fails only where a record cannot be
/// tokenized; what comes out depends on the bytes alone.
#[verifier::external_body]
fn csv_parse_bytes(data: &Vec<u8>) -> (r: Option<Vec<Vec<String>>>)
    ensures
        r is Some <==> csv_parse(data@) is Some,
        r is Some ==> r.unwrap().deep_view() == csv_parse(data@).unwrap(),
{
    csv::ReaderBuilder::new()
        .flexible(true)
        .trim(csv::Trim::All)
        .has_headers(false)
        .from_reader(data.as_slice())
        .into_records()
        .map(|rec| rec.map(|fields| fields.iter().map(String::from).collect()))
        .collect::<Result<Vec<Vec<String>>, csv::Error>>()
        .ok()
}

/// Relies on csv::WriterBuilder::from_writer: a fresh writer over an empty
/// buffer holds no records yet.
#[verifier::external_body]
fn csv_writer_new() -> (w: CsvSink)
    ensures
        sink_rows(w) == Seq::<Seq<Seq<char>>>::empty(),
{
    CsvSink {
        inner: csv::WriterBuilder::new().flexible(true).has_headers(false).from_writer(Vec::new()),
    }
}

/// Relies on csv::Writer::write_record: appends exactly one record, its
/// fields quoted and escaped as the format needs. Its only error source is
/// an I/O failure of the underlying writer, and writing into a byte vector
/// never fails (unequal record lengths are allowed by the flexible
/// configuration), so the call cannot fail here.
#[verifier::external_body]
fn csv_write_record(w: &mut CsvSink, row: &Vec<String>)
    ensures
        sink_rows(*final(w)) == sink_rows(*old(w)).push(row.deep_view()),
{
    w.inner.write_record(row.iter()).unwrap();
}

/// Relies on csv::Writer::into_inner: flushes and hands back the buffer,
/// which then holds the delimited-text encoding of exactly the records
/// written, in order. Flushing fails only on an I/O failure of the
/// underlying writer, and a byte vector has none, so the call cannot fail
/// here.
#[verifier::external_body]
fn csv_writer_finish(w: CsvSink) -> (r: Vec<u8>)
    ensures
        r@ == csv_encode(sink_rows(w)),
{
    w.inner.into_inner().unwrap()
}

/// Parses one delimited-text input into its table of trimmed fields;
/// `MalformedRecord` carries the caller-supplied input index.
pub fn parse_csv_table(data: &Vec<u8>, input_index: usize) -> (r: Result<
    Vec<Vec<String>>,
    ConvError,
>)
    ensures
        r is Ok <==> csv_parse(data@) is Some,
        r is Ok ==> (r->Ok_0).deep_view() == csv_parse(data@).unwrap(),
        r is Err ==> r->Err_0 == ConvError::MalformedRecord(input_index),
{
    match csv_parse_bytes(data) {
        Some(rows) => Ok(rows),
        None => Err(ConvError::MalformedRecord(input_index)),
    }
}

/// Serializes the rows as delimited text, every row one record in order.
/// Emission into memory cannot fail; writing the bytes anywhere is the
/// caller's side.
pub fn encode_csv_rows(rows: &Vec<Vec<String>>) -> (r: Vec<u8>)
    ensures
        r@ == csv_encode(rows.deep_view()),
{
    let ghost dv = rows.deep_view();
    let mut w = csv_writer_new();
    proof {
        assert(sink_rows(w) =~= dv.take(0));
    }
    let mut i: usize = 0;
    while i < rows.len()
        invariant
            i <= rows@.len(),
            dv == rows.deep_view(),
            dv.len() == rows@.len(),
            sink_rows(w) == dv.take(i as int),
        decreases rows@.len() - i,
    {
        csv_write_record(&mut w, &rows[i]);
        proof {
            assert(rows@[i as int].deep_view() == dv[i as int]);
            assert(dv.take(i as int).push(dv[i as int]) =~= dv.take(i as int + 1));
        }
        i += 1;
    }
    proof {
        assert(dv.take(rows@.len() as int) =~= dv);
    }
    csv_writer_finish(w)
}

} // verus!
