//! Trusted bridge to the CSV reader.
use vstd::prelude::*;

verus! {

/// The view of one row's fields.
pub open spec fn fields_view(fs: Seq<String>) -> Seq<Seq<char>> {
    Seq::new(fs.len(), |i: int| fs[i]@)
}

/// The view of a row list; an unreadable row is `None`.
pub open spec fn rows_view(rows: Seq<Option<Vec<String>>>) -> Seq<Option<Seq<Seq<char>>>> {
    Seq::new(
        rows.len(),
        |i: int|
            match rows[i] {
                None => None,
                Some(r) => Some(fields_view(r@)),
            },
    )
}

/// What a CSV text reads as: every record in order, each either its field
/// strings or `None` where the reader rejects the record. The rows are a
/// function of the text alone.
pub uninterp spec fn csv_rows_of(s: Seq<char>) -> Seq<Option<Seq<Seq<char>>>>;

/// Relies on csv's `Reader` without header handling: every record of the
/// text in order, a record the reader rejects (for instance with a field
/// count unlike the first record's) as `None`.
#[verifier::external_body]
pub fn csv_rows(text: &str) -> (r: Vec<Option<Vec<String>>>)
    ensures
        rows_view(r@) == csv_rows_of(text@),
{
    csv::ReaderBuilder::new()
        .has_headers(false)
        .from_reader(text.as_bytes())
        .into_records()
        .map(|rec| rec.ok().map(|fields| fields.iter().map(|f| f.to_string()).collect()))
        .collect()
}

} // verus!
