//! CSV tables.

use crate::failure::Failure;
use crate::numbers::{decimal, decimal_text};
use crate::text::{
    any_same, blank, byte_len, chars_of, concat3, is_blank, joined, lemma_texts_push, lower_ascii,
    sub_text, texts, to_lower_ascii, trim, trimmed, utf8_len,
};
use vstd::prelude::*;
use vstd::string::*;

verus! {

/// How many data rows of an event list are read.
pub const MAX_ANALYSIS_CSV_ROWS: usize = 250_000;

/// The fields of every row.
pub open spec fn table(rows: Seq<Vec<String>>) -> Seq<Seq<Seq<char>>> {
    rows.map_values(|row: Vec<String>| texts(row@))
}

pub broadcast proof fn lemma_table_push(rows: Seq<Vec<String>>, row: Vec<String>)
    ensures
        #[trigger] table(rows.push(row)) == table(rows).push(texts(row@)),
{
    assert(table(rows.push(row)) =~= table(rows).push(texts(row@)));
}

// ---------------------------------------------------------------------------
// Reading
// ---------------------------------------------------------------------------

/// The fields of the first record that `csv::Reader` finds in `bytes`; nothing where the
/// record is not valid UTF-8.
pub uninterp spec fn csv_header(bytes: Seq<u8>) -> Option<Seq<Seq<char>>>;

/// The records that `csv::Reader` finds in `bytes` behind the first. One that is not valid
/// UTF-8, or has another number of fields than the first, is nothing.
pub uninterp spec fn csv_rows(bytes: Seq<u8>) -> Seq<Option<Seq<Seq<char>>>>;

/// An optional row as its fields.
pub open spec fn row_fields(row: Option<Vec<String>>) -> Option<Seq<Seq<char>>> {
    match row {
        Some(fields) => Some(texts(fields@)),
        None => None,
    }
}

/// Every optional row as its fields.
pub open spec fn rows_fields(rows: Seq<Option<Vec<String>>>) -> Seq<Option<Seq<Seq<char>>>> {
    rows.map_values(|row: Option<Vec<String>>| row_fields(row))
}

/// `csv::Reader::headers` on `bytes`: the fields of the first record. They depend on the bytes
/// alone; what the fields of given bytes are is left to the reader.
#[verifier::external_body]
pub(crate) fn read_csv_header(bytes: &[u8]) -> (r: Option<Vec<String>>)
    ensures
        row_fields(r) == csv_header(bytes@),
{
    let mut reader = csv::ReaderBuilder::new().flexible(false).from_reader(bytes);
    let fields = reader.headers().ok()?;
    Some(fields.iter().map(str::to_string).collect())
}

/// `csv::Reader::records` on `bytes`: the first `limit` records behind the header. They
/// depend on the bytes alone, and each takes at least one byte; what they are for given bytes is
/// left to the reader.
#[verifier::external_body]
pub(crate) fn read_csv_rows(bytes: &[u8], limit: usize) -> (r: Vec<Option<Vec<String>>>)
    ensures
        rows_fields(r@) == csv_rows(bytes@).take(
            if csv_rows(bytes@).len() < limit {
                csv_rows(bytes@).len() as int
            } else {
                limit as int
            },
        ),
        r@.len() <= bytes@.len(),
{
    let mut reader = csv::ReaderBuilder::new().flexible(false).from_reader(bytes);
    let records = reader.records().take(limit);
    records.map(|row| Some(row.ok()?.iter().map(str::to_string).collect())).collect()
}

/// A table: the header, and the data rows behind it.
#[derive(Debug)]
pub struct ParsedCsv {
    pub headers: Vec<String>,
    pub records: Vec<Vec<String>>,
}

/// The contents of a table.
pub struct Table {
    pub headers: Seq<Seq<char>>,
    pub records: Seq<Seq<Seq<char>>>,
}

impl View for ParsedCsv {
    type V = Table;

    open spec fn view(&self) -> Table {
        Table { headers: texts(self.headers@), records: table(self.records@) }
    }
}

/// `bytes` without the byte order mark that it may begin with.
pub open spec fn without_mark(bytes: Seq<u8>) -> Seq<u8> {
    if bytes.len() >= 3 && bytes[0] == 0xEF && bytes[1] == 0xBB && bytes[2] == 0xBF {
        bytes.subrange(3, bytes.len() as int)
    } else {
        bytes
    }
}

pub fn strip_mark(bytes: &[u8]) -> (r: &[u8])
    ensures
        r@ == without_mark(bytes@),
{
    if bytes.len() >= 3 && bytes[0] == 0xEF && bytes[1] == 0xBB && bytes[2] == 0xBF {
        let (_, rest) = bytes.split_at(3);
        rest
    } else {
        bytes
    }
}

/// Whether one of the columns has no name.
pub open spec fn has_blank(headers: Seq<Seq<char>>) -> bool {
    exists|i: int| 0 <= i < headers.len() && is_blank(#[trigger] headers[i])
}

pub fn any_blank(headers: &Vec<String>) -> (r: bool)
    ensures
        r == has_blank(texts(headers@)),
{
    let mut i: usize = 0;
    while i < headers.len()
        invariant
            i <= headers.len(),
            forall|k: int| 0 <= k < i ==> !is_blank(#[trigger] texts(headers@)[k]),
        decreases headers.len() - i,
    {
        assert(texts(headers@)[i as int] == headers@[i as int]@);
        if blank(&headers[i]) {
            return true;
        }
        i += 1;
    }
    false
}

/// The rows before the first that is not valid.
pub open spec fn valid_prefix(rows: Seq<Option<Seq<Seq<char>>>>) -> Seq<Seq<Seq<char>>>
    decreases rows.len(),
{
    if rows.len() == 0 || rows[0] is None {
        seq![]
    } else {
        seq![rows[0]->0] + valid_prefix(rows.subrange(1, rows.len() as int))
    }
}

/// Where the first row stands that is not valid; the number of rows if all are.
pub open spec fn first_invalid(rows: Seq<Option<Seq<Seq<char>>>>) -> nat {
    valid_prefix(rows).len()
}

pub proof fn lemma_valid_prefix(rows: Seq<Option<Seq<Seq<char>>>>)
    ensures
        valid_prefix(rows).len() <= rows.len(),
        valid_prefix(rows).len() < rows.len() ==> rows[valid_prefix(rows).len() as int] is None,
        forall|k: int|
            0 <= k < valid_prefix(rows).len() ==> #[trigger] rows[k] == Some(
                valid_prefix(rows)[k],
            ),
    decreases rows.len(),
{
    if rows.len() > 0 && rows[0] is Some {
        let rest = rows.subrange(1, rows.len() as int);
        lemma_valid_prefix(rest);
        let all = valid_prefix(rows);
        assert(all.len() == 1 + valid_prefix(rest).len());
        assert forall|k: int| 0 <= k < all.len() implies #[trigger] rows[k] == Some(all[k]) by {
            if k > 0 {
                assert(rows[k] == rest[k - 1]);
                assert(all[k] == valid_prefix(rest)[k - 1]);
            }
        }
        if all.len() < rows.len() {
            assert(rows[all.len() as int] == rest[all.len() - 1]);
        }
    }
}

/// A sequence of rows that agrees with `rows` up to where they stop being valid is the valid
/// prefix.
pub proof fn lemma_valid_prefix_is(
    rows: Seq<Option<Seq<Seq<char>>>>,
    found: Seq<Seq<Seq<char>>>,
)
    requires
        found.len() <= rows.len(),
        forall|k: int| 0 <= k < found.len() ==> #[trigger] rows[k] == Some(found[k]),
        found.len() < rows.len() ==> rows[found.len() as int] is None,
    ensures
        valid_prefix(rows) == found,
{
    lemma_valid_prefix(rows);
    let p = valid_prefix(rows);
    if p.len() < found.len() {
        assert(rows[p.len() as int] == Some(found[p.len() as int]));
    }
    if found.len() < p.len() {
        assert(rows[found.len() as int] == Some(p[found.len() as int]));
    }
    assert forall|k: int| 0 <= k < found.len() implies p[k] == found[k] by {
        assert(rows[k] == Some(found[k]));
        assert(rows[k] == Some(p[k]));
    }
    assert(p =~= found);
}

/// The table that a header and rows make up, at most `max_rows` of them.
pub open spec fn table_of(
    header: Option<Seq<Seq<char>>>,
    rows: Seq<Option<Seq<Seq<char>>>>,
    max_rows: nat,
) -> Result<Table, Seq<char>> {
    match header {
        None => Err("Invalid CSV header"@),
        Some(headers) => if headers.len() == 0 {
            Err("CSV file has no header columns"@)
        } else if has_blank(headers) {
            Err("CSV file contains an empty header column"@)
        } else if first_invalid(rows) < rows.len() && first_invalid(rows) < max_rows {
            Err("Invalid CSV record at data row "@ + decimal(first_invalid(rows) + 1))
        } else if rows.len() > max_rows {
            Err(
                "CSV contains more than the supported maximum of "@ + decimal(max_rows)
                    + " data rows"@,
            )
        } else {
            Ok(Table { headers, records: valid_prefix(rows) })
        },
    }
}

/// Whether `r` is what `expected` says.
pub open spec fn is_table(r: Result<ParsedCsv, Failure>, expected: Result<Table, Seq<char>>) -> bool {
    match (r, expected) {
        (Ok(parsed), Ok(contents)) => parsed@ == contents,
        (Err(e), Err(message)) => e.message@ == message,
        _ => false,
    }
}

/// Makes a table of what was read. `rows` may end behind the row after the last that counts.
pub fn table_from_rows(
    header: Option<Vec<String>>,
    rows: Vec<Option<Vec<String>>>,
    max_rows: usize,
) -> (r: Result<ParsedCsv, Failure>)
    ensures
        is_table(r, table_of(row_fields(header), rows_fields(rows@), max_rows as nat)),
{
    broadcast use {lemma_texts_push, lemma_table_push};

    let headers = match header {
        Some(headers) => headers,
        None => {
            return Err(Failure::of("Invalid CSV header"));
        },
    };
    if headers.len() == 0 {
        return Err(Failure::of("CSV file has no header columns"));
    }
    if any_blank(&headers) {
        return Err(Failure::of("CSV file contains an empty header column"));
    }
    let ghost model = rows_fields(rows@);
    let mut records: Vec<Vec<String>> = Vec::new();
    let mut i: usize = 0;
    while i < rows.len()
        invariant
            i <= rows.len(),
            i <= max_rows,
            model == rows_fields(rows@),
            texts(headers@).len() > 0,
            !has_blank(texts(headers@)),
            row_fields(header) == Some(texts(headers@)),
            table(records@).len() == i,
            forall|k: int| 0 <= k < i ==> #[trigger] model[k] == Some(table(records@)[k]),
        decreases rows.len() - i,
    {
        assert(model[i as int] == row_fields(rows@[i as int]));
        if i >= max_rows {
            proof {
                lemma_valid_prefix(model);
                if first_invalid(model) < max_rows {
                    assert(model[first_invalid(model) as int] == Some(
                        table(records@)[first_invalid(model) as int],
                    ));
                }
            }
            return Err(
                Failure::new(
                    concat3(
                        "CSV contains more than the supported maximum of ",
                        &decimal_text(max_rows as u64),
                        " data rows",
                    ),
                ),
            );
        }
        match &rows[i] {
            None => {
                proof {
                    lemma_valid_prefix_is(model, table(records@));
                }
                let mut message = "Invalid CSV record at data row ".to_string();
                message.append(&decimal_text(i as u64 + 1));
                return Err(Failure::new(message));
            },
            Some(fields) => {
                let copy = copy_texts(fields);
                let ghost before = table(records@);
                records.push(copy);
                assert(table(records@) == before.push(texts(fields@)));
            },
        }
        i += 1;
    }
    proof {
        lemma_valid_prefix_is(model, table(records@));
    }
    Ok(ParsedCsv { headers, records })
}

/// A copy of a list of texts.
pub fn copy_texts(items: &Vec<String>) -> (r: Vec<String>)
    ensures
        texts(r@) == texts(items@),
{
    let mut r: Vec<String> = Vec::new();
    let mut i: usize = 0;
    assert(texts(r@) =~= texts(items@).take(0));
    while i < items.len()
        invariant
            i <= items.len(),
            texts(r@) == texts(items@).take(i as int),
        decreases items.len() - i,
    {
        let ghost before = texts(r@);
        r.push(items[i].clone());
        assert(texts(r@) =~= before.push(items@[i as int]@));
        i += 1;
        assert(texts(r@) =~= texts(items@).take(i as int));
    }
    assert(texts(items@).take(i as int) =~= texts(items@));
    r
}

/// Dropping rows behind the one after the last that counts does not change the table.
proof fn lemma_table_of_taken(
    header: Option<Seq<Seq<char>>>,
    rows: Seq<Option<Seq<Seq<char>>>>,
    max_rows: nat,
    n: int,
)
    requires
        0 <= n <= rows.len(),
        n == rows.len() || n > max_rows,
    ensures
        table_of(header, rows.take(n), max_rows) == table_of(header, rows, max_rows),
{
    let some = rows.take(n);
    lemma_valid_prefix(rows);
    lemma_valid_prefix(some);
    if n == rows.len() {
        assert(some =~= rows);
    } else {
        let f = first_invalid(rows);
        if f < n {
            assert forall|k: int| 0 <= k < valid_prefix(rows).len() implies #[trigger] some[k]
                == Some(valid_prefix(rows)[k]) by {
                assert(rows[k] == Some(valid_prefix(rows)[k]));
            }
            assert(some[f as int] is None);
            lemma_valid_prefix_is(some, valid_prefix(rows));
        } else {
            let all = valid_prefix(rows).take(n);
            assert forall|k: int| 0 <= k < all.len() implies #[trigger] some[k] == Some(all[k]) by {
                assert(rows[k] == Some(valid_prefix(rows)[k]));
            }
            lemma_valid_prefix_is(some, all);
        }
    }
}

/// The table in `bytes`.
pub open spec fn table_in(bytes: Seq<u8>, max_rows: nat) -> Result<Table, Seq<char>> {
    let rest = without_mark(bytes);
    if rest.len() == 0 {
        Err("Empty CSV file"@)
    } else {
        table_of(csv_header(rest), csv_rows(rest), max_rows)
    }
}

/// Reads a table of at most `max_rows` data rows.
pub fn parse_csv_bytes_with_limit(bytes: &[u8], max_rows: usize) -> (r: Result<ParsedCsv, Failure>)
    requires
        max_rows < usize::MAX,
    ensures
        is_table(r, table_in(bytes@, max_rows as nat)),
{
    let rest = strip_mark(bytes);
    if rest.len() == 0 {
        return Err(Failure::of("Empty CSV file"));
    }
    let header = read_csv_header(rest);
    let rows = read_csv_rows(rest, max_rows + 1);
    proof {
        let all = csv_rows(rest@);
        let n = if all.len() < max_rows + 1 {
            all.len() as int
        } else {
            max_rows + 1
        };
        lemma_table_of_taken(csv_header(rest@), all, max_rows as nat, n);
    }
    table_from_rows(header, rows, max_rows)
}

/// Reads a table of at most [`MAX_ANALYSIS_CSV_ROWS`] data rows.
pub fn parse_csv_bytes(bytes: &[u8]) -> (r: Result<ParsedCsv, Failure>)
    ensures
        is_table(r, table_in(bytes@, MAX_ANALYSIS_CSV_ROWS as nat)),
{
    parse_csv_bytes_with_limit(bytes, MAX_ANALYSIS_CSV_ROWS)
}

// ---------------------------------------------------------------------------
// Writing
// ---------------------------------------------------------------------------

/// Whether a field cannot stand in a record without quotation marks.
pub open spec fn needs_quotes(field: Seq<char>) -> bool {
    field.contains(',') || field.contains('"') || field.contains('\r') || field.contains('\n')
}

/// `s` with every quotation mark doubled.
pub open spec fn doubled(s: Seq<char>) -> Seq<char>
    decreases s.len(),
{
    if s.len() == 0 {
        s
    } else if s.last() == '"' {
        doubled(s.drop_last()) + seq!['"', '"']
    } else {
        doubled(s.drop_last()).push(s.last())
    }
}

/// A field as it stands in a record.
pub open spec fn written_field(field: Seq<char>) -> Seq<char> {
    if needs_quotes(field) {
        seq!['"'] + doubled(field) + seq!['"']
    } else {
        field
    }
}

/// A record: its fields with commas between them. A record that would be empty is a pair of
/// quotation marks.
pub open spec fn written_record(fields: Seq<Seq<char>>) -> Seq<char> {
    let line = joined(fields.map_values(|field: Seq<char>| written_field(field)), seq![',']);
    if line.len() == 0 {
        seq!['"', '"']
    } else {
        line
    }
}

/// `csv::Writer::write_record` to memory: the record and a line feed. A field is put between
/// quotation marks where it holds a comma, a quotation mark or a line break, and quotation
/// marks in it are doubled. Writing one record to memory does not fail.
#[verifier::external_body]
fn csv_line(record: &Vec<String>) -> (r: String)
    ensures
        r@ == written_record(texts(record@)).push('\n'),
{
    let mut writer = csv::WriterBuilder::new().has_headers(false).from_writer(Vec::new());
    let written = writer.write_record(record).and_then(|_| Ok(writer.flush()?));
    let bytes = written.ok().and_then(|_| writer.into_inner().ok()).unwrap_or_default();
    String::from_utf8(bytes).unwrap_or_default()
}

proof fn lemma_joined_last(parts: Seq<Seq<char>>, separator: Seq<char>, c: char)
    requires
        separator.len() > 0,
        separator.last() != c,
        forall|k: int| 0 <= k < parts.len() ==> (#[trigger] parts[k]).len() == 0 || parts[k].last() != c,
    ensures
        joined(parts, separator).len() == 0 || joined(parts, separator).last() != c,
    decreases parts.len(),
{
    if parts.len() > 1 {
        let r = joined(parts, separator);
        assert(parts[parts.len() - 1] == parts.last());
        if parts.last().len() == 0 {
            assert(r =~= joined(parts.drop_last(), separator) + separator);
        }
    } else if parts.len() == 1 {
        assert(parts[0].len() == 0 || parts[0].last() != c);
    }
}

/// A written record never ends with a carriage return.
proof fn lemma_record_end(fields: Seq<Seq<char>>)
    ensures
        written_record(fields).len() > 0,
        written_record(fields).last() != '\r',
{
    let parts = fields.map_values(|field: Seq<char>| written_field(field));
    assert forall|k: int| 0 <= k < parts.len() implies (#[trigger] parts[k]).len() == 0
        || parts[k].last() != '\r' by {
        let field = fields[k];
        if !needs_quotes(field) && field.len() > 0 {
            assert(field.contains(field.last()));
        }
    }
    lemma_joined_last(parts, seq![','], '\r');
}

/// One logical record as a text. Line breaks inside quoted fields stay; only the line end
/// behind the record is left out.
pub fn csv_record_to_string(record: &Vec<String>) -> (r: String)
    ensures
        r@ == written_record(texts(record@)),
{
    let chars = chars_of(&csv_line(record));
    let ghost line = written_record(texts(record@));
    proof {
        lemma_record_end(texts(record@));
        assert(chars@[line.len() as int] == '\n');
        assert(chars@[line.len() - 1] == line.last());
    }
    let mut end: usize = chars.len();
    if end > 0 && chars[end - 1] == '\n' {
        end -= 1;
        if end > 0 && chars[end - 1] == '\r' {
            end -= 1;
        }
    }
    assert(chars@.subrange(0, end as int) =~= line);
    sub_text(&chars, 0, end)
}

/// The number of bytes of all fields together.
pub open spec fn fields_len(fields: Seq<Seq<char>>) -> nat
    decreases fields.len(),
{
    if fields.len() == 0 {
        0
    } else {
        fields_len(fields.drop_last()) + utf8_len(fields.last())
    }
}

/// Whether the fields together take more than `limit` bytes.
pub fn fields_exceed(fields: &Vec<String>, limit: usize) -> (r: bool)
    ensures
        r == (fields_len(texts(fields@)) > limit),
{
    let ghost model = texts(fields@);
    let mut total: usize = 0;
    let mut i: usize = 0;
    assert(model.take(0) =~= seq![]);
    while i < fields.len()
        invariant
            i <= fields.len(),
            model == texts(fields@),
            total == fields_len(model.take(i as int)),
            total <= limit,
        decreases fields.len() - i,
    {
        let size: usize = byte_len(&fields[i]);
        proof {
            let now = model.take(i + 1);
            assert(now.drop_last() =~= model.take(i as int));
            assert(now.last() == fields@[i as int]@);
            lemma_fields_len_grows(model, i + 1);
        }
        if size > limit - total {
            return true;
        }
        total += size;
        i += 1;
    }
    assert(model.take(i as int) =~= model);
    false
}

proof fn lemma_fields_len_grows(fields: Seq<Seq<char>>, n: int)
    requires
        0 <= n <= fields.len(),
    ensures
        fields_len(fields.take(n)) <= fields_len(fields),
    decreases fields.len(),
{
    if n < fields.len() {
        lemma_fields_len_grows(fields.drop_last(), n);
        assert(fields.drop_last().take(n) =~= fields.take(n));
    } else {
        assert(fields.take(n) =~= fields);
    }
}

// ---------------------------------------------------------------------------
// Columns
// ---------------------------------------------------------------------------

/// A column name as it is looked up: trimmed, its ASCII letters in lower case.
pub open spec fn normalized(header: Seq<char>) -> Seq<char> {
    lower_ascii(trimmed(header))
}

pub fn normalize(header: &str) -> (r: String)
    ensures
        r@ == normalized(header@),
{
    let chars = to_lower_ascii(&chars_of(&trim(header)));
    assert(chars@.subrange(0, chars@.len() as int) =~= chars@);
    sub_text(&chars, 0, chars.len())
}

/// Every column name as it is looked up.
pub open spec fn all_normalized(headers: Seq<Seq<char>>) -> Seq<Seq<char>> {
    headers.map_values(|header: Seq<char>| normalized(header))
}

pub fn normalize_all(headers: &Vec<String>) -> (r: Vec<String>)
    ensures
        texts(r@) == all_normalized(texts(headers@)),
{
    broadcast use lemma_texts_push;

    let ghost model = all_normalized(texts(headers@));
    let mut r: Vec<String> = Vec::new();
    let mut i: usize = 0;
    assert(texts(r@) =~= model.take(0));
    while i < headers.len()
        invariant
            i <= headers.len(),
            model == all_normalized(texts(headers@)),
            texts(r@) == model.take(i as int),
        decreases headers.len() - i,
    {
        r.push(normalize(&headers[i]));
        assert(texts(headers@)[i as int] == headers@[i as int]@);
        assert(model.take(i + 1) =~= model.take(i as int).push(model[i as int]));
        i += 1;
    }
    assert(model.take(i as int) =~= model);
    r
}

/// The column that an event list lacks first, of those it must have.
pub open spec fn missing_event_column(headers: Seq<Seq<char>>) -> Option<Seq<char>> {
    let known = all_normalized(headers);
    if !known.contains("queue id"@) {
        Some("queue id"@)
    } else if !known.contains("name"@) {
        Some("name"@)
    } else if !known.contains("global id"@) {
        Some("global id"@)
    } else {
        None
    }
}

pub open spec fn missing_column_text(column: Seq<char>) -> Seq<char> {
    "CSV output is not a PIX event list: required column \""@ + column + "\" is missing"@
}

fn missing_column(column: &str) -> (r: Failure)
    ensures
        r.message@ == missing_column_text(column@),
{
    Failure::new(
        concat3(
            "CSV output is not a PIX event list: required column \"",
            column,
            "\" is missing",
        ),
    )
}

/// Checks that a table is a PIX event list.
pub fn validate_event_list_headers(headers: &Vec<String>) -> (r: Result<(), Failure>)
    ensures
        match missing_event_column(texts(headers@)) {
            None => r is Ok,
            Some(column) => r is Err && r->Err_0.message@ == missing_column_text(column),
        },
{
    let known = normalize_all(headers);
    if !any_same(&known, "queue id") {
        return Err(missing_column("queue id"));
    }
    if !any_same(&known, "name") {
        return Err(missing_column("name"));
    }
    if !any_same(&known, "global id") {
        return Err(missing_column("global id"));
    }
    Ok(())
}

} // verus!
