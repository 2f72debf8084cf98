//! The delimited-text writer of the csv crate, behind trusted items.
//! `rows_of` names the complete records written to a writer so far; the
//! wrapper contracts state, over that name, what the crate's writer
//! does with its default configuration (comma delimiter, newline
//! terminator, quoting only where necessary). `csv_write_row` admits
//! only records its writer accepts — non-empty, with the field count of
//! every record before them — so a writer's buffer always holds exactly
//! the terminated records that `rows_of` names.

use vstd::prelude::*;
use crate::rows::{plain_csv_bytes, plain_rows};

verus! {

/// A csv::Writer over an in-memory byte buffer. The writer type itself
/// carries a trait bound Verus cannot declare, so it is held opaquely in
/// a field here.
#[verifier::external_body]
pub struct SetWriter {
    inner: csv::Writer<Vec<u8>>,
}

/// The records written to the writer so far, each a sequence of fields.
pub uninterp spec fn rows_of(w: SetWriter) -> Seq<Seq<Seq<char>>>;

/// Relies on csv::Writer::from_writer: a fresh writer over an empty
/// buffer has written no records.
#[verifier::external_body]
pub(crate) fn csv_writer_new() -> (w: SetWriter)
    ensures
        rows_of(w) == Seq::<Seq<Seq<char>>>::empty(),
{
    SetWriter { inner: csv::Writer::from_writer(Vec::new()) }
}

/// Relies on csv::Writer::write_record: appends one record made of the
/// given fields. Writing into a byte buffer cannot fail on a non-empty
/// record whose field count matches every record already written — the
/// only error paths are an I/O failure of the sink and the field-count
/// check — so on the inputs admitted here the call is total, and a
/// writer never holds the residue of a rejected record.
#[verifier::external_body]
pub(crate) fn csv_write_row(w: &mut SetWriter, fields: &Vec<String>)
    requires
        fields@.len() >= 1,
        forall|i: int|
            0 <= i < rows_of(*old(w)).len() ==> (#[trigger] rows_of(*old(w))[i]).len()
                == fields@.len(),
    ensures
        rows_of(*final(w)) == rows_of(*old(w)).push(fields@.map_values(|f: String| f@)),
{
    let _ = w.inner.write_record(fields.iter());
}

/// Relies on csv::Writer::into_inner: flushes and hands back the byte
/// buffer; flushing into a Vec cannot fail. With the default
/// configuration every plain field is written verbatim, fields are
/// separated by commas and every record ends with a newline.
#[verifier::external_body]
pub(crate) fn csv_into_bytes(w: SetWriter) -> (r: Vec<u8>)
    ensures
        plain_rows(rows_of(w)) ==> r@ == plain_csv_bytes(rows_of(w)),
{
    match w.inner.into_inner() {
        Ok(buf) => buf,
        Err(_) => Vec::new(),
    }
}

} // verus!
