//! Reading delimited tables: the records of a table as lists of texts.

use vstd::prelude::*;
use crate::text::texts;

verus! {

/// The byte `;`, which delimits the fields of most tables.
pub const SEMICOLON: u8 = 59;

/// The byte `,`, which delimits the fields of the table of coordinates.
pub const COMMA: u8 = 44;

/// The records that the delimited-table reader finds in `data`, in order:
/// the fields of each record that it can read, and `None` for each record
/// that it rejects. With `has_headers` the first record is left out. Without
/// `flexible` a record with another number of fields than the first is
/// rejected; with it such a record is read like any other.
pub uninterp spec fn csv_records(data: Seq<u8>, delimiter: u8, has_headers: bool, flexible: bool)
    -> Seq<Option<Seq<Seq<char>>>>;

/// The error with which the delimited-table reader rejects a record.
#[verifier::external_type_specification]
#[verifier::external_body]
pub struct ExTableError(csv::Error);

/// What a list of read records says of each record: its fields, or `None`
/// where the reader rejected it.
pub open spec fn outcomes(records: Seq<Result<Vec<String>, csv::Error>>) -> Seq<
    Option<Seq<Seq<char>>>,
> {
    Seq::new(
        records.len(),
        |i: int|
            match records[i] {
                Ok(fields) => Some(texts(fields@)),
                Err(_) => None,
            },
    )
}

/// Reads every record of `data` with `csv::ReaderBuilder` (`delimiter`,
/// `has_headers`, `flexible`, `from_reader`) and `Reader::into_records`.
/// What the reader yields depends on the bytes and the three settings
/// alone; the contract names it `csv_records` and claims no more.
#[verifier::external_body]
pub(crate) fn read_records(data: &[u8], delimiter: u8, has_headers: bool, flexible: bool) -> (records:
    Vec<Result<Vec<String>, csv::Error>>)
    ensures
        outcomes(records@) == csv_records(data@, delimiter, has_headers, flexible),
{
    csv::ReaderBuilder::new()
        .delimiter(delimiter)
        .has_headers(has_headers)
        .flexible(flexible)
        .from_reader(data)
        .into_records()
        .map(|record| record.map(|fields| fields.iter().map(|field| field.to_string()).collect()))
        .collect()
}

/// The message of a `csv::Error`, as its `Display` writes it. Nothing is
/// claimed of the text.
#[verifier::external_body]
pub(crate) fn describe(error: &csv::Error) -> (message: String) {
    error.to_string()
}

/// The reference table that a record belongs to.
#[derive(Clone, Copy, Debug, PartialEq, Eq, Structural)]
pub enum Source {
    /// The directory of capability codes.
    Capcodes,
    /// The table of measures per place.
    Observations,
    /// The table of place codes and titles.
    RegioCodes,
}

/// A reference table holds a record that the reader rejects.
#[derive(Debug)]
pub struct LoadError {
    /// The table.
    pub source: Source,
    /// The position of the record among the records of the table, from 0.
    pub record: usize,
    /// What the reader says of the record.
    pub reason: String,
}

/// The fields of the records of a table.
pub open spec fn tables(records: Seq<Vec<String>>) -> Seq<Seq<Seq<char>>> {
    Seq::new(records.len(), |i: int| texts(records[i]@))
}

/// The position of the first rejected record, if there is one.
pub open spec fn first_rejected(outcomes: Seq<Option<Seq<Seq<char>>>>) -> Option<int>
    decreases outcomes.len(),
{
    if outcomes.len() == 0 {
        None
    } else {
        match first_rejected(outcomes.drop_last()) {
            Some(at) => Some(at),
            None => if outcomes.last() is None {
                Some(outcomes.len() - 1)
            } else {
                None
            },
        }
    }
}

/// The records that were read, in order, without the rejected ones.
pub open spec fn readable(outcomes: Seq<Option<Seq<Seq<char>>>>) -> Seq<Seq<Seq<char>>>
    decreases outcomes.len(),
{
    if outcomes.len() == 0 {
        Seq::empty()
    } else {
        match outcomes.last() {
            Some(fields) => readable(outcomes.drop_last()).push(fields),
            None => readable(outcomes.drop_last()),
        }
    }
}

/// A copy of a list of texts.
pub fn copy_texts(fields: &Vec<String>) -> (copy: Vec<String>)
    ensures
        texts(copy@) == texts(fields@),
{
    let mut copy: Vec<String> = Vec::new();
    let mut i: usize = 0;
    while i < fields.len()
        invariant
            i <= fields.len(),
            texts(copy@) == texts(fields@).take(i as int),
        decreases fields.len() - i,
    {
        let ghost before = texts(copy@);
        let field = fields[i].clone();
        copy.push(field);
        assert(texts(copy@) == before.push(fields@[i as int]@));
        assert(texts(fields@).take(i + 1) == texts(fields@).take(i as int).push(
            fields@[i as int]@,
        ));
        i = i + 1;
    }
    assert(texts(fields@).take(fields.len() as int) == texts(fields@));
    copy
}

/// The records of a table that must be whole: all of them where the reader
/// rejected none, and else the first rejected record as an error.
pub fn accepted(records: &Vec<Result<Vec<String>, csv::Error>>, source: Source) -> (result: Result<
    Vec<Vec<String>>,
    LoadError,
>)
    ensures
        match result {
            Ok(rows) => first_rejected(outcomes(records@)) is None && tables(rows@) == readable(
                outcomes(records@),
            ),
            Err(error) => first_rejected(outcomes(records@)) == Some(error.record as int)
                && error.source == source,
        },
{
    let mut rows: Vec<Vec<String>> = Vec::new();
    let mut i: usize = 0;
    assert(outcomes(records@).take(0) == Seq::<Option<Seq<Seq<char>>>>::empty());
    assert(tables(rows@) == Seq::<Seq<Seq<char>>>::empty());
    while i < records.len()
        invariant
            i <= records.len(),
            first_rejected(outcomes(records@).take(i as int)) is None,
            tables(rows@) == readable(outcomes(records@).take(i as int)),
        decreases records.len() - i,
    {
        let ghost upto = outcomes(records@).take(i + 1);
        proof {
            assert(upto.drop_last() == outcomes(records@).take(i as int));
            assert(upto.last() == outcomes(records@)[i as int]);
        }
        match &records[i] {
            Ok(fields) => {
                let ghost before = tables(rows@);
                let copy = copy_texts(fields);
                rows.push(copy);
                assert(tables(rows@) == before.push(texts(fields@)));
            },
            Err(error) => {
                proof {
                    lemma_first_rejected_stays(outcomes(records@), i + 1);
                }
                return Err(LoadError { source, record: i, reason: describe(error) });
            },
        }
        i = i + 1;
    }
    assert(outcomes(records@).take(records.len() as int) == outcomes(records@));
    Ok(rows)
}

/// The records of a table that may have gaps: those that the reader did not
/// reject, in order.
pub fn tolerated(records: &Vec<Result<Vec<String>, csv::Error>>) -> (rows: Vec<Vec<String>>)
    ensures
        tables(rows@) == readable(outcomes(records@)),
{
    let mut rows: Vec<Vec<String>> = Vec::new();
    let mut i: usize = 0;
    assert(outcomes(records@).take(0) == Seq::<Option<Seq<Seq<char>>>>::empty());
    assert(tables(rows@) == Seq::<Seq<Seq<char>>>::empty());
    while i < records.len()
        invariant
            i <= records.len(),
            tables(rows@) == readable(outcomes(records@).take(i as int)),
        decreases records.len() - i,
    {
        let ghost upto = outcomes(records@).take(i + 1);
        proof {
            assert(upto.drop_last() == outcomes(records@).take(i as int));
            assert(upto.last() == outcomes(records@)[i as int]);
        }
        match &records[i] {
            Ok(fields) => {
                let ghost before = tables(rows@);
                let copy = copy_texts(fields);
                rows.push(copy);
                assert(tables(rows@) == before.push(texts(fields@)));
            },
            Err(_) => {},
        }
        i = i + 1;
    }
    assert(outcomes(records@).take(records.len() as int) == outcomes(records@));
    rows
}

/// Once a prefix holds a rejected record, the first rejected record of the
/// whole list is that of the prefix.
pub proof fn lemma_first_rejected_stays(outcomes: Seq<Option<Seq<Seq<char>>>>, n: int)
    requires
        0 <= n <= outcomes.len(),
        first_rejected(outcomes.take(n)) is Some,
    ensures
        first_rejected(outcomes) == first_rejected(outcomes.take(n)),
    decreases outcomes.len() - n,
{
    if n < outcomes.len() {
        assert(outcomes.take(n + 1).drop_last() == outcomes.take(n));
        lemma_first_rejected_stays(outcomes, n + 1);
    } else {
        assert(outcomes.take(n) == outcomes);
    }
}

/// The first rejected record is a rejected record with none before it.
pub proof fn lemma_first_rejected_is_first(outcomes: Seq<Option<Seq<Seq<char>>>>, at: int)
    ensures
        first_rejected(outcomes) == Some(at) <==> (0 <= at < outcomes.len() && outcomes[at] is None
            && forall|k: int| 0 <= k < at ==> (#[trigger] outcomes[k]) is Some),
        first_rejected(outcomes) is None <==> forall|k: int|
            0 <= k < outcomes.len() ==> (#[trigger] outcomes[k]) is Some,
    decreases outcomes.len(),
{
    if outcomes.len() > 0 {
        let shorter = outcomes.drop_last();
        lemma_first_rejected_is_first(shorter, at);
        assert forall|k: int| 0 <= k < shorter.len() implies shorter[k] == outcomes[k] by {}
        match first_rejected(shorter) {
            Some(found) => {
                lemma_first_rejected_is_first(shorter, found);
                assert(shorter[found] == outcomes[found]);
                if 0 <= at < outcomes.len() && outcomes[at] is None && (forall|k: int|
                    0 <= k < at ==> (#[trigger] outcomes[k]) is Some) {
                    if at < found {
                        assert(shorter[at] == outcomes[at]);
                    }
                }
            },
            None => {},
        }
    }
}

} // verus!
