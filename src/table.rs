use vstd::prelude::*;

use crate::site::{lines_view, CsvLine, Entry, SiteValue};

verus! {

#[verifier::external_type_specification]
#[verifier::external_body]
pub struct ExCsvError(csv::Error);

/// Why a table could not be read back.
#[derive(Debug, Clone, Copy, PartialEq, Eq, Structural)]
pub enum TableError {
    /// The text holds no record at all, so no header line.
    MissingHeader,
    /// The header line is not `key,enabled,keyword,text,url,utf8`.
    BadHeader,
    /// Record `row` (the header being record 0) does not have six fields.
    WrongColumnCount { row: usize },
    /// Field `column` (counted from 0) of record `row` is neither `true` nor `false`.
    BadFlag { row: usize, column: usize },
    /// The text is not well-formed delimited UTF-8 text.
    Syntax,
}

/// The column names of the table, in order.
pub open spec fn header() -> Seq<Seq<char>> {
    seq!["key"@, "enabled"@, "keyword"@, "text"@, "url"@, "utf8"@]
}

/// How a flag is written in the table.
pub open spec fn flag_token(b: bool) -> Seq<char> {
    if b {
        "true"@
    } else {
        "false"@
    }
}

/// The flag that a field holds, if it holds one.
pub open spec fn parse_flag_spec(s: Seq<char>) -> Option<bool> {
    if s == "true"@ {
        Some(true)
    } else if s == "false"@ {
        Some(false)
    } else {
        None
    }
}

/// The fields of one row, in column order.
pub open spec fn record_of(e: Entry) -> Seq<Seq<char>> {
    seq![e.0, flag_token(e.1.enabled), e.1.keyword, e.1.text, e.1.url, flag_token(e.1.utf8)]
}

/// The records of a table of rows: the header, then one record per row.
pub open spec fn records_of(rows: Seq<Entry>) -> Seq<Seq<Seq<char>>> {
    seq![header()] + rows.map_values(|e: Entry| record_of(e))
}

/// The row that record number `row` holds, or why it holds none.
pub open spec fn decode_record(row: usize, rec: Seq<Seq<char>>) -> Result<Entry, TableError> {
    if rec.len() != 6 {
        Err(TableError::WrongColumnCount { row })
    } else if parse_flag_spec(rec[1]) is None {
        Err(TableError::BadFlag { row, column: 1 })
    } else if parse_flag_spec(rec[5]) is None {
        Err(TableError::BadFlag { row, column: 5 })
    } else {
        Ok(
            (
                rec[0],
                SiteValue {
                    enabled: parse_flag_spec(rec[1])->Some_0,
                    keyword: rec[2],
                    text: rec[3],
                    url: rec[4],
                    utf8: parse_flag_spec(rec[5])->Some_0,
                },
            ),
        )
    }
}

/// The rows that the data records hold, or the error of the first record that
/// holds none. Data record `i` is record `i + 1` of the table.
pub open spec fn decode_rows(data: Seq<Seq<Seq<char>>>) -> Result<Seq<Entry>, TableError>
    decreases data.len(),
{
    if data.len() == 0 {
        Ok(Seq::empty())
    } else {
        match decode_rows(data.drop_last()) {
            Err(e) => Err(e),
            Ok(es) => match decode_record(data.len() as usize, data.last()) {
                Err(e) => Err(e),
                Ok(x) => Ok(es.push(x)),
            },
        }
    }
}

/// The rows that a table's records hold: a header line that names the six
/// columns in order, then one record of six fields per row.
pub open spec fn decode_table(recs: Seq<Seq<Seq<char>>>) -> Result<Seq<Entry>, TableError> {
    if recs.len() == 0 {
        Err(TableError::MissingHeader)
    } else if recs[0] != header() {
        Err(TableError::BadHeader)
    } else {
        decode_rows(recs.drop_first())
    }
}

/// The fields of a record as character sequences.
pub open spec fn fields_view(r: Seq<String>) -> Seq<Seq<char>> {
    r.map_values(|s: String| s@)
}

/// The records of a table as character sequences.
pub open spec fn records_view(t: Seq<Vec<String>>) -> Seq<Seq<Seq<char>>> {
    t.map_values(|r: Vec<String>| fields_view(r@))
}

/// The rows of a decoding result as entries.
pub open spec fn rows_result(r: Result<Vec<CsvLine>, TableError>) -> Result<Seq<Entry>, TableError> {
    match r {
        Ok(ls) => Ok(lines_view(ls@)),
        Err(e) => Err(e),
    }
}

/// The line that the delimited-text writer makes of one record: its fields,
/// each quoted where it holds the delimiter, a quote or a line break, then a
/// line end.
pub uninterp spec fn csv_line(rec: Seq<Seq<char>>) -> Seq<u8>;

/// The text of a table: the line of each record, in order.
pub open spec fn table_text(recs: Seq<Seq<Seq<char>>>) -> Seq<u8>
    decreases recs.len(),
{
    if recs.len() == 0 {
        Seq::empty()
    } else {
        table_text(recs.drop_last()) + csv_line(recs.last())
    }
}

/// The records that the delimited-text reader finds in a text, or `None` where
/// it reports an error.
pub uninterp spec fn csv_fields(text: Seq<u8>) -> Option<Seq<Seq<Seq<char>>>>;

/// Relies on `csv::Writer` (`from_writer`, `write_record`, `into_inner`) over
/// an empty vector: the bytes of one record. A first record passes the
/// writer's test on record lengths, and writing into a vector never fails.
#[verifier::external_body]
fn csv_record_line(rec: &Vec<String>) -> (r: Result<Vec<u8>, csv::Error>)
    ensures
        r is Ok,
        r->Ok_0@ == csv_line(fields_view(rec@)),
{
    let mut w = csv::Writer::from_writer(Vec::new());
    w.write_record(rec)?;
    w.into_inner().map_err(|e| e.into_error().into())
}

/// Relies on `csv::ReaderBuilder` with no header handling and records of any
/// length, and on `Reader::records`: every record, header line included, as
/// text fields; an error where the text is malformed or not UTF-8.
#[verifier::external_body]
fn read_csv(text: &Vec<u8>) -> (r: Result<Vec<Vec<String>>, csv::Error>)
    ensures
        match r {
            Ok(v) => csv_fields(text@) == Some(records_view(v@)),
            Err(_) => csv_fields(text@) is None,
        },
{
    let mut rdr = csv::ReaderBuilder::new().has_headers(false).flexible(true).from_reader(
        text.as_slice(),
    );
    rdr.records().map(|rec| rec.map(|f| f.iter().map(String::from).collect())).collect()
}

/// How a flag is written in the table: `true` or `false`.
pub fn flag_text(b: bool) -> (r: String)
    ensures
        r@ == flag_token(b),
{
    if b {
        "true".to_owned()
    } else {
        "false".to_owned()
    }
}

/// The flag that a field holds: `true` or `false` exactly, nothing else.
pub fn parse_flag(s: &String) -> (r: Option<bool>)
    ensures
        r == parse_flag_spec(s@),
{
    if s.eq(&"true".to_owned()) {
        Some(true)
    } else if s.eq(&"false".to_owned()) {
        Some(false)
    } else {
        None
    }
}

/// The header record: the six column names in order.
pub fn header_record() -> (r: Vec<String>)
    ensures
        fields_view(r@) == header(),
{
    let mut r: Vec<String> = Vec::new();
    r.push("key".to_owned());
    r.push("enabled".to_owned());
    r.push("keyword".to_owned());
    r.push("text".to_owned());
    r.push("url".to_owned());
    r.push("utf8".to_owned());
    assert(fields_view(r@) =~= header());
    r
}

/// Whether a record is the header record.
fn is_header(rec: &Vec<String>) -> (r: bool)
    ensures
        r == (fields_view(rec@) == header()),
{
    let h = header_record();
    assert(fields_view(h@).len() == h@.len());
    if rec.len() != h.len() {
        assert(fields_view(rec@).len() != header().len());
        return false;
    }
    let mut i: usize = 0;
    while i < rec.len()
        invariant
            rec@.len() == h@.len() == 6,
            fields_view(h@) == header(),
            i <= rec@.len(),
            forall|j: int| 0 <= j < i ==> rec@[j]@ == h@[j]@,
        decreases rec@.len() - i,
    {
        if !rec[i].eq(&h[i]) {
            assert(fields_view(rec@)[i as int] != header()[i as int]);
            return false;
        }
        i = i + 1;
    }
    assert(fields_view(rec@) =~= header());
    true
}

/// The record that a row is written as.
fn record_of_line(line: &CsvLine) -> (r: Vec<String>)
    ensures
        fields_view(r@) == record_of(line@),
{
    let mut r: Vec<String> = Vec::new();
    r.push(line.key.clone());
    r.push(flag_text(line.enabled));
    r.push(line.keyword.clone());
    r.push(line.text.clone());
    r.push(line.url.clone());
    r.push(flag_text(line.utf8));
    assert(fields_view(r@) =~= record_of(line@));
    r
}

/// The records of a table: the header line, then one record per row, in order.
pub fn lines_to_records(lines: &Vec<CsvLine>) -> (r: Vec<Vec<String>>)
    ensures
        records_view(r@) == records_of(lines_view(lines@)),
{
    let mut r: Vec<Vec<String>> = Vec::new();
    r.push(header_record());
    let mut i: usize = 0;
    while i < lines.len()
        invariant
            i <= lines@.len(),
            r@.len() == i + 1,
            fields_view(r@[0]@) == header(),
            forall|j: int| 0 <= j < i ==> fields_view((#[trigger] r@[j + 1])@) == record_of(lines@[j]@),
        decreases lines@.len() - i,
    {
        let rec = record_of_line(&lines[i]);
        r.push(rec);
        i = i + 1;
    }
    assert(records_view(r@) =~= records_of(lines_view(lines@))) by {
        let a = records_view(r@);
        let b = records_of(lines_view(lines@));
        assert forall|j: int| 0 <= j < a.len() implies a[j] == b[j] by {
            if j > 0 {
                assert(r@[(j - 1) + 1] == r@[j]);
            }
        }
    }
    r
}

/// The row that record number `row` holds, or why it holds none.
fn decode_line(row: usize, rec: &Vec<String>) -> (r: Result<CsvLine, TableError>)
    ensures
        match r {
            Ok(l) => decode_record(row, fields_view(rec@)) == Ok::<Entry, TableError>(l@),
            Err(e) => decode_record(row, fields_view(rec@)) == Err::<Entry, TableError>(e),
        },
{
    if rec.len() != 6 {
        return Err(TableError::WrongColumnCount { row });
    }
    let enabled = match parse_flag(&rec[1]) {
        Some(b) => b,
        None => {
            return Err(TableError::BadFlag { row, column: 1 });
        },
    };
    let utf8 = match parse_flag(&rec[5]) {
        Some(b) => b,
        None => {
            return Err(TableError::BadFlag { row, column: 5 });
        },
    };
    Ok(
        CsvLine {
            key: rec[0].clone(),
            enabled,
            keyword: rec[2].clone(),
            text: rec[3].clone(),
            url: rec[4].clone(),
            utf8,
        },
    )
}

/// Once some data records hold no row, no longer run of data records does:
/// the first error stays.
proof fn lemma_decode_error_stays(data: Seq<Seq<Seq<char>>>, n: int)
    requires
        0 <= n <= data.len(),
        decode_rows(data.take(n)) is Err,
    ensures
        decode_rows(data) == decode_rows(data.take(n)),
    decreases data.len() - n,
{
    if n < data.len() {
        assert(data.take(n + 1).drop_last() =~= data.take(n));
        lemma_decode_error_stays(data, n + 1);
    } else {
        assert(data.take(n) =~= data);
    }
}

/// The rows that a table's records hold, or why they hold none (see
/// `decode_table`).
pub fn records_to_lines(records: &Vec<Vec<String>>) -> (r: Result<Vec<CsvLine>, TableError>)
    ensures
        rows_result(r) == decode_table(records_view(records@)),
{
    let ghost recs = records_view(records@);
    if records.len() == 0 {
        return Err(TableError::MissingHeader);
    }
    if !is_header(&records[0]) {
        return Err(TableError::BadHeader);
    }
    let ghost data = recs.drop_first();
    assert(recs[0] == fields_view(records@[0]@));
    assert(decode_table(recs) == decode_rows(data));
    let mut lines: Vec<CsvLine> = Vec::new();
    assert(data.take(0) =~= Seq::<Seq<Seq<char>>>::empty());
    assert(lines_view(lines@) =~= Seq::<Entry>::empty());
    let mut i: usize = 1;
    while i < records.len()
        invariant
            1 <= i <= records@.len(),
            recs == records_view(records@),
            data == recs.drop_first(),
            decode_table(recs) == decode_rows(data),
            decode_rows(data.take(i - 1)) == Ok::<Seq<Entry>, TableError>(lines_view(lines@)),
        decreases records@.len() - i,
    {
        let ghost before = lines@;
        assert(data.take(i as int).drop_last() =~= data.take(i - 1));
        assert(data.take(i as int).last() == fields_view(records@[i as int]@));
        match decode_line(i, &records[i]) {
            Ok(l) => {
                lines.push(l);
                assert(lines_view(lines@) =~= lines_view(before).push(l@));
            },
            Err(e) => {
                proof {
                    assert(decode_rows(data.take(i as int)) == Err::<Seq<Entry>, TableError>(e));
                    lemma_decode_error_stays(data, i as int);
                    assert(decode_rows(data) == Err::<Seq<Entry>, TableError>(e));
                }
                return Err(e);
            },
        }
        i = i + 1;
    }
    assert(data.take(i - 1) =~= data);
    Ok(lines)
}

/// The table text of a sequence of rows: a header line, then one line per row
/// in order, fields quoted where they hold the delimiter, a quote or a line
/// break.
pub fn write_table(lines: &Vec<CsvLine>) -> (r: Vec<u8>)
    ensures
        r@ == table_text(records_of(lines_view(lines@))),
{
    let records = lines_to_records(lines);
    let mut text: Vec<u8> = Vec::new();
    let mut i: usize = 0;
    while i < records.len()
        invariant
            i <= records@.len(),
            text@ == table_text(records_view(records@).take(i as int)),
        decreases records@.len() - i,
    {
        let mut line = match csv_record_line(&records[i]) {
            Ok(l) => l,
            Err(_) => Vec::new(),
        };
        text.append(&mut line);
        assert(records_view(records@).take(i + 1).drop_last() =~= records_view(records@).take(
            i as int,
        ));
        i = i + 1;
    }
    assert(records_view(records@).take(i as int) =~= records_view(records@));
    text
}

/// The rows that a table text holds, or why it holds none: `Syntax` where the
/// text is not well-formed delimited text, else as `records_to_lines`.
pub fn read_table(text: &Vec<u8>) -> (r: Result<Vec<CsvLine>, TableError>)
    ensures
        rows_result(r) == match csv_fields(text@) {
            None => Err(TableError::Syntax),
            Some(recs) => decode_table(recs),
        },
{
    match read_csv(text) {
        Ok(records) => records_to_lines(&records),
        Err(_) => Err(TableError::Syntax),
    }
}

/// A flag reads back as the flag it was written from.
proof fn lemma_flag_round_trip(b: bool)
    ensures
        parse_flag_spec(flag_token(b)) == Some(b),
{
    reveal_strlit("true");
    reveal_strlit("false");
    assert("true"@.len() != "false"@.len());
}

/// Records written from rows read back as those rows.
proof fn lemma_decode_rows_of(rows: Seq<Entry>)
    ensures
        decode_rows(rows.map_values(|e: Entry| record_of(e))) == Ok::<Seq<Entry>, TableError>(rows),
    decreases rows.len(),
{
    if rows.len() > 0 {
        let data = rows.map_values(|e: Entry| record_of(e));
        assert(data.drop_last() =~= rows.drop_last().map_values(|e: Entry| record_of(e)));
        lemma_decode_rows_of(rows.drop_last());
        let e = rows.last();
        lemma_flag_round_trip(e.1.enabled);
        lemma_flag_round_trip(e.1.utf8);
        assert(data.last() == record_of(e));
        let rec = record_of(e);
        assert(rec.len() == 6 && rec[0] == e.0 && rec[2] == e.1.keyword && rec[3] == e.1.text
            && rec[4] == e.1.url);
        assert(decode_record(data.len() as usize, rec) == Ok::<Entry, TableError>(e));
        assert(rows.drop_last().push(e) =~= rows);
    } else {
        assert(rows =~= Seq::<Entry>::empty());
    }
}

/// Writing rows as records and reading the records back gives the same rows,
/// whatever characters their fields hold: quoting is left to the writer and
/// the reader of delimited text.
pub proof fn lemma_table_round_trip(rows: Seq<Entry>)
    ensures
        decode_table(records_of(rows)) == Ok::<Seq<Entry>, TableError>(rows),
{
    let recs = records_of(rows);
    assert(recs.drop_first() =~= rows.map_values(|e: Entry| record_of(e)));
    lemma_decode_rows_of(rows);
}

/// A table whose header line lacks the `enabled` column is refused as a whole.
pub proof fn lemma_missing_column_rejected(recs: Seq<Seq<Seq<char>>>)
    requires
        recs.len() > 0,
        !recs[0].contains("enabled"@),
    ensures
        decode_table(recs) == Err::<Seq<Entry>, TableError>(TableError::BadHeader),
{
    assert(header()[1] == "enabled"@);
}

/// A table with a record whose flag field is neither `true` nor `false` (say
/// `maybe`) is refused as a whole: no rows come back.
pub proof fn lemma_bad_flag_rejected(recs: Seq<Seq<Seq<char>>>, i: int, c: int)
    requires
        recs.len() > 0,
        1 <= i < recs.len(),
        recs[i].len() == 6,
        c == 1 || c == 5,
        parse_flag_spec(recs[i][c]) is None,
    ensures
        decode_table(recs) is Err,
{
    if recs[0] == header() {
        let data = recs.drop_first();
        let n = i;
        assert(data.take(n).drop_last() =~= data.take(n - 1));
        assert(data.take(n).last() == recs[i]);
        assert(decode_rows(data.take(n)) is Err);
        lemma_decode_error_stays(data, n);
    }
}

} // verus!
