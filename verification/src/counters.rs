//! Exported counter files.

use crate::events::least;
use crate::failure::Failure;
use crate::finite::{finite_number, read_finite, Double};
use crate::frame::{all_trimmed, blank_row, live_rows, trim_all};
use crate::json::{json_text, quoted};
use crate::numbers::{
    all_digits, decimal, decimal_reads_back, decimal_text, digit_value, parse_signed, parse_unsigned, signed, signed_decimal,
    signed_decimal_text, unsigned,
};
use crate::order::{
    ascending, distinct_sorted, distinct_sorted_has_the_same_texts, put, sort_distinct, text_less,
    text_less_is_total,
};
use crate::paths::{is_settled, named_file, optional_extension, path_extension};
use crate::tables::{parse_csv_bytes_with_limit, table_in, ParsedCsv, Table};
use crate::text::{
    byte_len, chars_of, concat3, join, joined, lemma_texts_push, lower_ascii, optional_text,
    same_text, sub_text, texts, to_lower_ascii, trim, trimmed, unicode_lower, utf8_len,
};
use vstd::prelude::*;
use vstd::string::*;
use vstd::utf8::{decode_utf8, encode_utf8, valid_utf8};

verus! {

pub const MAX_COUNTER_EXPORT_BYTES: u64 = 8_388_608;

pub const MAX_COUNTER_EXPORT_ROWS: usize = 50_000;

pub const MAX_COUNTER_RESULT_BYTES: usize = 8_388_608;

/// A request for the contents of an exported counter file.
#[derive(Debug)]
pub struct ExportCountersArgs {
    pub file_path: String,
    /// `csv`, `json`, or `auto`, which goes by the extension of the file.
    pub format: Option<String>,
}

/// How an exported counter file is written.
#[derive(Debug, Clone, Copy, PartialEq, Eq, Structural)]
pub enum CounterFormat {
    Csv,
    Json,
}

// ---------------------------------------------------------------------------
// The format
// ---------------------------------------------------------------------------

/// A format name as it is looked up.
pub open spec fn format_name(format: Option<Seq<char>>) -> Seq<char> {
    lower_ascii(
        trimmed(
            match format {
                Some(text) => text,
                None => "auto"@,
            },
        ),
    )
}

/// The format that a file extension stands for.
pub open spec fn format_of_extension(extension: Option<Seq<char>>) -> Option<CounterFormat> {
    match extension {
        Some(text) => if lower_ascii(text) == "csv"@ {
            Some(CounterFormat::Csv)
        } else if lower_ascii(text) == "json"@ {
            Some(CounterFormat::Json)
        } else {
            None
        },
        None => None,
    }
}

/// The format of a file, by what was asked for and by its extension.
pub open spec fn counter_format_of(format: Option<Seq<char>>, extension: Option<Seq<char>>) -> Result<
    CounterFormat,
    Seq<char>,
> {
    let name = format_name(format);
    if name == "auto"@ {
        match format_of_extension(extension) {
            Some(found) => Ok(found),
            None => Err(
                "Cannot detect format from extension. Pass format: \"csv\" or \"json\"."@,
            ),
        }
    } else if name == "csv"@ {
        Ok(CounterFormat::Csv)
    } else if name == "json"@ {
        Ok(CounterFormat::Json)
    } else {
        Err("Unsupported format \""@ + name + "\". Use \"csv\" or \"json\"."@)
    }
}

fn lower_text(s: &str) -> (r: String)
    ensures
        r@ == lower_ascii(s@),
{
    let chars = to_lower_ascii(&chars_of(s));
    assert(chars@.subrange(0, chars@.len() as int) =~= chars@);
    sub_text(&chars, 0, chars.len())
}

/// Decides the format of a file with the given extension.
pub fn counter_format(format: &Option<String>, extension: &Option<String>) -> (r: Result<
    CounterFormat,
    Failure,
>)
    ensures
        match (r, counter_format_of(optional_text(*format), optional_text(*extension))) {
            (Ok(a), Ok(b)) => a == b,
            (Err(e), Err(message)) => e.message@ == message,
            _ => false,
        },
{
    let name = match format {
        Some(text) => lower_text(&trim(text)),
        None => lower_text(&trim("auto")),
    };
    if same_text(&name, "auto") {
        if let Some(text) = extension {
            let lower = lower_text(text);
            if same_text(&lower, "csv") {
                return Ok(CounterFormat::Csv);
            }
            if same_text(&lower, "json") {
                return Ok(CounterFormat::Json);
            }
        }
        return Err(
            Failure::of("Cannot detect format from extension. Pass format: \"csv\" or \"json\"."),
        );
    }
    if same_text(&name, "csv") {
        return Ok(CounterFormat::Csv);
    }
    if same_text(&name, "json") {
        return Ok(CounterFormat::Json);
    }
    Err(Failure::new(concat3("Unsupported format \"", &name, "\". Use \"csv\" or \"json\".")))
}

// ---------------------------------------------------------------------------
// Values
// ---------------------------------------------------------------------------

/// The value of a cell.
#[derive(Debug)]
pub enum CounterValue {
    Signed(i64),
    Unsigned(u64),
    Number(Double),
    Text(String),
}

/// The contents of a cell.
pub enum Cell {
    Signed(int),
    Unsigned(nat),
    /// The bits of the number, and the number as JSON.
    Number(u64, Seq<char>),
    Text(Seq<char>),
}

impl View for CounterValue {
    type V = Cell;

    open spec fn view(&self) -> Cell {
        match self {
            CounterValue::Signed(n) => Cell::Signed(*n as int),
            CounterValue::Unsigned(n) => Cell::Unsigned(*n as nat),
            CounterValue::Number(number) => Cell::Number(number.bits, number.json@),
            CounterValue::Text(text) => Cell::Text(text@),
        }
    }
}

/// What a cell holds: an integer where it is one that fits 64 bits, else a finite number where
/// it is one, else its text.
pub open spec fn cell_of(field: Seq<char>) -> Cell {
    cell_with(trimmed(field), finite_number(trimmed(field)))
}

/// What a cell with a text holds, given the finite number that the text spells, if any.
pub open spec fn cell_with(text: Seq<char>, number: Option<(u64, Seq<char>)>) -> Cell {
    match signed(text) {
        Some(n) => Cell::Signed(n),
        None => match unsigned(text, 10, u64::MAX as nat) {
            Some(n) => Cell::Unsigned(n),
            None => match number {
                Some((bits, json)) => Cell::Number(bits, json),
                None => Cell::Text(text),
            },
        },
    }
}

/// The value of a cell with a text, given the finite number that the text spells, if any.
pub fn value_with_number(text: String, number: Option<Double>) -> (r: CounterValue)
    ensures
        r@ == cell_with(
            text@,
            match number {
                Some(number) => Some((number.bits, number.json@)),
                None => None,
            },
        ),
{
    if let Some(n) = parse_signed(&text) {
        return CounterValue::Signed(n);
    }
    if let Some(n) = parse_unsigned(&text, 10, u64::MAX) {
        return CounterValue::Unsigned(n);
    }
    match number {
        Some(number) => CounterValue::Number(number),
        None => CounterValue::Text(text),
    }
}

pub fn counter_value(field: &str) -> (r: CounterValue)
    ensures
        r@ == cell_of(field@),
{
    let text = trim(field);
    let number = read_finite(&text);
    value_with_number(text, number)
}

/// A cell as JSON.
pub open spec fn cell_json(cell: Cell) -> Seq<char> {
    match cell {
        Cell::Signed(n) => signed_decimal(n),
        Cell::Unsigned(n) => decimal(n),
        Cell::Number(_, json) => json,
        Cell::Text(text) => quoted(text),
    }
}

fn value_json(value: &CounterValue) -> (r: String)
    ensures
        r@ == cell_json(value@),
{
    match value {
        CounterValue::Signed(n) => signed_decimal_text(*n),
        CounterValue::Unsigned(n) => decimal_text(*n),
        CounterValue::Number(number) => number.json.clone(),
        CounterValue::Text(text) => json_text(text),
    }
}

/// A row of counters: the values of the columns, in their order.
#[derive(Debug)]
pub struct CounterRow {
    pub values: Vec<CounterValue>,
}

/// The cells of a row.
pub open spec fn cells(values: Seq<CounterValue>) -> Seq<Cell> {
    values.map_values(|value: CounterValue| value@)
}

/// The cells of every row.
pub open spec fn row_cells(rows: Seq<CounterRow>) -> Seq<Seq<Cell>> {
    rows.map_values(|row: CounterRow| cells(row.values@))
}

/// The cells of a row, one for each column that it has a field for.
pub open spec fn cells_of(columns: Seq<Seq<char>>, fields: Seq<Seq<char>>) -> Seq<Cell> {
    Seq::new(least(columns.len(), fields.len()), |i: int| cell_of(fields[i]))
}

/// The members of a row as JSON.
pub open spec fn members(columns: Seq<Seq<char>>, row: Seq<Cell>) -> Seq<Seq<char>> {
    Seq::new(row.len(), |i: int| quoted(columns[i]) + ":"@ + cell_json(row[i]))
}

/// A row as a JSON object.
pub open spec fn row_json(columns: Seq<Seq<char>>, row: Seq<Cell>) -> Seq<char> {
    "{"@ + joined(members(columns, row), ","@) + "}"@
}

/// The rows as a JSON array.
pub open spec fn data_json(columns: Seq<Seq<char>>, rows: Seq<Seq<Cell>>) -> Seq<char> {
    "["@ + joined(rows.map_values(|row: Seq<Cell>| row_json(columns, row)), ","@) + "]"@
}

fn row_text(columns: &Vec<String>, values: &Vec<CounterValue>) -> (r: String)
    requires
        values.len() <= columns.len(),
    ensures
        r@ == row_json(texts(columns@), cells(values@)),
{
    broadcast use lemma_texts_push;

    let ghost model = members(texts(columns@), cells(values@));
    let mut parts: Vec<String> = Vec::new();
    let mut i: usize = 0;
    assert(texts(parts@) =~= model.take(0));
    while i < values.len()
        invariant
            i <= values.len() <= columns.len(),
            model == members(texts(columns@), cells(values@)),
            texts(parts@) == model.take(i as int),
        decreases values.len() - i,
    {
        parts.push(concat3(&json_text(&columns[i]), ":", &value_json(&values[i])));
        assert(texts(columns@)[i as int] == columns@[i as int]@);
        assert(cells(values@)[i as int] == values@[i as int]@);
        assert(model.take(i + 1) =~= model.take(i as int).push(model[i as int]));
        i += 1;
    }
    assert(model.take(i as int) =~= model);
    concat3("{", &join(&parts, ","), "}")
}

// ---------------------------------------------------------------------------
// Exported files
// ---------------------------------------------------------------------------

/// What was in an exported counter file.
#[derive(Debug)]
pub enum CounterData {
    /// The rows of a table.
    Rows(Vec<CounterRow>),
    /// A JSON value, as compact text.
    Json(String),
}

/// What a request for the contents of a counter file is answered.
#[derive(Debug)]
pub struct ExportCountersReport {
    pub success: bool,
    pub format: String,
    pub columns: Option<Vec<String>>,
    pub row_count: Option<usize>,
    pub data: CounterData,
}

/// Whether two of the first `n` texts are the same.
pub open spec fn has_repetition(items: Seq<Seq<char>>, n: int) -> bool {
    exists|i: int, j: int| 0 <= i < j < n && #[trigger] items[i] == #[trigger] items[j]
}

/// Every text in lower case.
pub open spec fn all_lower(items: Seq<Seq<char>>) -> Seq<Seq<char>> {
    items.map_values(|item: Seq<char>| unicode_lower(item))
}

/// The first text that equals an earlier one; the number of texts if none does.
pub open spec fn first_repetition(items: Seq<Seq<char>>, n: int) -> int
    decreases n,
{
    if n <= 0 {
        items.len() as int
    } else if has_repetition(items, n) && !has_repetition(items, n - 1) {
        n - 1
    } else {
        first_repetition(items, n - 1)
    }
}

proof fn lemma_put_len(s: Seq<Seq<char>>, x: Seq<char>)
    requires
        ascending(s),
    ensures
        put(s, x).len() == s.len() + (if s.contains(x) {
            0int
        } else {
            1int
        }),
    decreases s.len(),
{
    if s.len() > 0 {
        let head = s.drop_last();
        text_less_is_total(s.last(), x);
        assert(s[s.len() - 1] == s.last());
        if text_less(s.last(), x) {
            if s.contains(x) {
                let k = choose|k: int| 0 <= k < s.len() && s[k] == x;
                assert(text_less(s[k], s[s.len() - 1]));
                text_less_is_total(s.last(), x);
            }
        } else if s.last() != x {
            lemma_put_len(head, x);
            if s.contains(x) {
                let k = choose|k: int| 0 <= k < s.len() && s[k] == x;
                assert(head[k] == x);
            }
            if head.contains(x) {
                let k = choose|k: int| 0 <= k < head.len() && head[k] == x;
                assert(s[k] == x);
            }
        }
    }
}

/// Texts are distinct exactly where dropping repetitions drops none.
proof fn lemma_distinct_len(items: Seq<Seq<char>>)
    ensures
        distinct_sorted(items).len() <= items.len(),
        distinct_sorted(items).len() == items.len() <==> !has_repetition(
            items,
            items.len() as int,
        ),
    decreases items.len(),
{
    if items.len() > 0 {
        let head = items.drop_last();
        let n = items.len() as int;
        lemma_distinct_len(head);
        distinct_sorted_has_the_same_texts(head);
        lemma_put_len(distinct_sorted(head), items.last());
        assert(has_repetition(items, n) <==> has_repetition(head, n - 1) || head.contains(
            items.last(),
        )) by {
            if has_repetition(items, n) {
                let (i, j) = choose|i: int, j: int|
                    0 <= i < j < n && #[trigger] items[i] == #[trigger] items[j];
                if j < n - 1 {
                    assert(head[i] == head[j]);
                } else {
                    assert(head[i] == items.last());
                }
            }
            if has_repetition(head, n - 1) {
                let (i, j) = choose|i: int, j: int|
                    0 <= i < j < n - 1 && #[trigger] head[i] == #[trigger] head[j];
                assert(items[i] == items[j]);
            }
            if head.contains(items.last()) {
                let k = choose|k: int| 0 <= k < head.len() && head[k] == items.last();
                assert(items[k] == items[n - 1]);
            }
        }
    }
}

/// Whether two of the first `n` texts are the same.
fn repeats(items: &Vec<String>, n: usize) -> (r: bool)
    requires
        n <= items.len(),
    ensures
        r == has_repetition(texts(items@), n as int),
{
    broadcast use lemma_texts_push;

    let ghost model = texts(items@);
    let mut first: Vec<String> = Vec::new();
    let mut i: usize = 0;
    assert(texts(first@) =~= model.take(0));
    while i < n
        invariant
            i <= n <= items.len(),
            model == texts(items@),
            texts(first@) == model.take(i as int),
        decreases n - i,
    {
        first.push(items[i].clone());
        assert(model.take(i + 1) =~= model.take(i as int).push(model[i as int]));
        i += 1;
    }
    let ghost some = model.take(n as int);
    proof {
        lemma_distinct_len(some);
        assert(has_repetition(some, n as int) == has_repetition(model, n as int)) by {
            if has_repetition(some, n as int) {
                let (i, j) = choose|i: int, j: int|
                    0 <= i < j < n && #[trigger] some[i] == #[trigger] some[j];
                assert(model[i] == model[j]);
            }
            if has_repetition(model, n as int) {
                let (i, j) = choose|i: int, j: int|
                    0 <= i < j < n && #[trigger] model[i] == #[trigger] model[j];
                assert(some[i] == some[j]);
            }
        }
    }
    let distinct = sort_distinct(first);
    assert(texts(distinct@).len() == distinct.len());
    distinct.len() < n
}

proof fn lemma_repetition_grows(items: Seq<Seq<char>>, m: int, n: int)
    requires
        m <= n,
        has_repetition(items, m),
    ensures
        has_repetition(items, n),
{
    let (i, j) = choose|i: int, j: int|
        0 <= i < j < m && #[trigger] items[i] == #[trigger] items[j];
    assert(items[i] == items[j]);
}

proof fn lemma_first_repetition_is(items: Seq<Seq<char>>, n: int, at: int)
    requires
        0 <= at < n,
        has_repetition(items, at + 1),
        !has_repetition(items, at),
    ensures
        first_repetition(items, n) == at,
    decreases n,
{
    if at < n - 1 {
        lemma_repetition_grows(items, at + 1, n - 1);
        lemma_first_repetition_is(items, n - 1, at);
    }
}

proof fn lemma_no_repetition(items: Seq<Seq<char>>, n: int)
    requires
        !has_repetition(items, n),
    ensures
        first_repetition(items, n) == items.len(),
    decreases n,
{
    if n > 0 {
        if has_repetition(items, n - 1) {
            lemma_repetition_grows(items, n - 1, n);
        }
        lemma_no_repetition(items, n - 1);
    }
}

/// Finds the first text that equals an earlier one.
fn find_repetition(items: &Vec<String>) -> (r: Option<usize>)
    ensures
        match r {
            Some(at) => at < items.len() && at == first_repetition(
                texts(items@),
                items.len() as int,
            ),
            None => first_repetition(texts(items@), items.len() as int) == items.len(),
        },
{
    let ghost model = texts(items@);
    assert(model.len() == items.len());
    if !repeats(items, items.len()) {
        proof {
            lemma_no_repetition(model, items.len() as int);
        }
        return None;
    }
    let mut low: usize = 0;
    let mut high: usize = items.len();
    while high - low > 1
        invariant
            low < high <= items.len(),
            model == texts(items@),
            !has_repetition(model, low as int),
            has_repetition(model, high as int),
        decreases high - low,
    {
        let middle: usize = low + (high - low) / 2;
        if repeats(items, middle) {
            high = middle;
        } else {
            low = middle;
        }
    }
    proof {
        lemma_first_repetition_is(model, items.len() as int, low as int);
    }
    Some(low)
}

fn lower_all(items: &Vec<String>) -> (r: Vec<String>)
    ensures
        texts(r@) == all_lower(texts(items@)),
{
    broadcast use lemma_texts_push;

    let ghost model = all_lower(texts(items@));
    let mut r: Vec<String> = Vec::new();
    let mut i: usize = 0;
    assert(texts(r@) =~= model.take(0));
    while i < items.len()
        invariant
            i <= items.len(),
            model == all_lower(texts(items@)),
            texts(r@) == model.take(i as int),
        decreases items.len() - i,
    {
        r.push(items[i].to_lowercase());
        assert(model[i as int] == unicode_lower(items@[i as int]@));
        assert(model.take(i + 1) =~= model.take(i as int).push(model[i as int]));
        i += 1;
    }
    assert(model.take(i as int) =~= model);
    r
}

/// The cells of the rows that hold something.
pub open spec fn data_cells(contents: Table) -> Seq<Seq<Cell>> {
    live_rows(contents.records).map_values(
        |fields: Seq<Seq<char>>| cells_of(contents.headers, fields),
    )
}

/// What is wrong with a counter table, if anything: a column name that occurs twice, or more
/// data than is returned.
pub open spec fn counter_table_problem(contents: Table) -> Option<Seq<char>> {
    let columns = all_trimmed(contents.headers);
    let twice = first_repetition(all_lower(columns), columns.len() as int);
    if twice < columns.len() {
        Some("CSV contains a duplicate column name: "@ + columns[twice])
    } else {
        size_problem(utf8_len(data_json(columns, data_cells(contents))))
    }
}

/// What is said of data that takes `size` bytes of JSON, if that is too much.
pub open spec fn size_problem(size: nat) -> Option<Seq<char>> {
    if size > MAX_COUNTER_RESULT_BYTES {
        Some(
            "Parsed counter data is too large to return ("@ + decimal(size)
                + " bytes; maximum 8388608). Export a smaller selection."@,
        )
    } else {
        None
    }
}

fn check_size(json: &str) -> (r: Result<(), Failure>)
    ensures
        match size_problem(utf8_len(json@)) {
            Some(message) => r is Err && r->Err_0.message@ == message,
            None => r is Ok,
        },
{
    let size: usize = byte_len(json);
    if size > MAX_COUNTER_RESULT_BYTES {
        return Err(
            Failure::new(
                concat3(
                    "Parsed counter data is too large to return (",
                    &decimal_text(size as u64),
                    " bytes; maximum 8388608). Export a smaller selection.",
                ),
            ),
        );
    }
    Ok(())
}

impl ExportCountersReport {
    /// Whether this returns the counter table `contents`.
    pub open spec fn returns_table(&self, contents: Table) -> bool {
        &&& self.success
        &&& self.format@ == "csv"@
        &&& self.columns is Some && texts(self.columns->0@) == all_trimmed(contents.headers)
        &&& self.row_count == Some(live_rows(contents.records).len() as usize)
        &&& self.data is Rows && row_cells(self.data->Rows_0@) == data_cells(contents)
    }

    /// Whether this returns the JSON value `json`.
    pub open spec fn returns_json(&self, json: Seq<char>) -> bool {
        &&& self.success
        &&& self.format@ == "json"@
        &&& self.columns is None
        &&& self.row_count is None
        &&& self.data is Json && self.data->Json_0@ == json
    }
}

fn row_values(columns: &Vec<String>, fields: &Vec<String>) -> (r: Vec<CounterValue>)
    ensures
        cells(r@) == cells_of(texts(columns@), texts(fields@)),
        r.len() <= columns.len(),
{
    let ghost model = cells_of(texts(columns@), texts(fields@));
    let count: usize = if columns.len() < fields.len() {
        columns.len()
    } else {
        fields.len()
    };
    let mut r: Vec<CounterValue> = Vec::new();
    let mut i: usize = 0;
    assert(cells(r@) =~= model.take(0));
    while i < count
        invariant
            i <= count <= fields.len(),
            count <= columns.len(),
            model == cells_of(texts(columns@), texts(fields@)),
            model.len() == count,
            cells(r@) == model.take(i as int),
            r.len() == i,
        decreases count - i,
    {
        let ghost before = cells(r@);
        r.push(counter_value(&fields[i]));
        assert(texts(fields@)[i as int] == fields@[i as int]@);
        assert(cells(r@) =~= before.push(cell_of(fields@[i as int]@)));
        assert(model.take(i + 1) =~= model.take(i as int).push(model[i as int]));
        i += 1;
    }
    assert(model.take(i as int) =~= model);
    r
}

/// The number of cells depends on the number of columns, not on their names.
proof fn lemma_cells_of_trimmed(headers: Seq<Seq<char>>, fields: Seq<Seq<char>>)
    ensures
        cells_of(all_trimmed(headers), fields) == cells_of(headers, fields),
{
    assert(cells_of(all_trimmed(headers), fields) =~= cells_of(headers, fields));
}

/// The report on a counter table.
pub fn counter_table_report(parsed: &ParsedCsv) -> (r: Result<ExportCountersReport, Failure>)
    ensures
        match (r, counter_table_problem(parsed@)) {
            (Ok(report), None) => report.returns_table(parsed@),
            (Err(e), Some(message)) => e.message@ == message,
            _ => false,
        },
{
    broadcast use lemma_texts_push;

    let ghost contents = parsed@;
    let columns = trim_all(&parsed.headers);
    let lower = lower_all(&columns);
    assert(texts(lower@).len() == lower.len() && texts(columns@).len() == columns.len());
    if let Some(twice) = find_repetition(&lower) {
        let mut message = "CSV contains a duplicate column name: ".to_string();
        message.append(&columns[twice]);
        return Err(Failure::new(message));
    }
    let ghost shape = |fields: Seq<Seq<char>>| cells_of(contents.headers, fields);
    let ghost names = texts(columns@);
    let mut rows: Vec<CounterRow> = Vec::new();
    let mut parts: Vec<String> = Vec::new();
    let mut i: usize = 0;
    assert(contents.records.take(0) =~= seq![]);
    assert(row_cells(rows@) =~= live_rows(contents.records.take(0)).map_values(shape));
    let ghost spell = |row: Seq<Cell>| row_json(names, row);
    assert(texts(parts@) =~= row_cells(rows@).map_values(spell));
    while i < parsed.records.len()
        invariant
            i <= parsed.records.len(),
            contents == parsed@,
            names == texts(columns@),
            names == all_trimmed(contents.headers),
            shape == (|fields: Seq<Seq<char>>| cells_of(contents.headers, fields)),
            rows.len() == live_rows(contents.records.take(i as int)).len(),
            row_cells(rows@) == live_rows(contents.records.take(i as int)).map_values(shape),
            spell == (|row: Seq<Cell>| row_json(names, row)),
            texts(parts@) == row_cells(rows@).map_values(spell),
        decreases parsed.records.len() - i,
    {
        let ghost before = live_rows(contents.records.take(i as int));
        let ghost old_rows = row_cells(rows@);
        proof {
            let now = contents.records.take(i + 1);
            assert(now.drop_last() =~= contents.records.take(i as int));
            assert(now.last() == texts(parsed.records@[i as int]@));
        }
        if !blank_row(&parsed.records[i]) {
            let ghost fields = texts(parsed.records@[i as int]@);
            let values = row_values(&columns, &parsed.records[i]);
            proof {
                lemma_cells_of_trimmed(contents.headers, fields);
            }
            parts.push(row_text(&columns, &values));
            rows.push(CounterRow { values });
            assert(row_cells(rows@) =~= old_rows.push(shape(fields)));
            assert(before.push(fields).map_values(shape) =~= before.map_values(shape).push(
                shape(fields),
            ));
            assert(old_rows.push(shape(fields)).map_values(spell) =~= old_rows.map_values(
                spell,
            ).push(spell(shape(fields))));
        }
        i += 1;
    }
    assert(contents.records.take(i as int) =~= contents.records);
    let json = concat3("[", &join(&parts, ","), "]");
    check_size(&json)?;
    Ok(
        ExportCountersReport {
            success: true,
            format: "csv".to_string(),
            columns: Some(columns),
            row_count: Some(rows.len()),
            data: CounterData::Rows(rows),
        },
    )
}

/// Whether `r` returns the counter table in `bytes`.
pub open spec fn is_counter_table(r: Result<ExportCountersReport, Failure>, bytes: Seq<u8>) -> bool {
    match table_in(bytes, MAX_COUNTER_EXPORT_ROWS as nat) {
        Err(message) => r is Err && r->Err_0.message@ == message,
        Ok(contents) => match (r, counter_table_problem(contents)) {
            (Ok(report), None) => report.returns_table(contents),
            (Err(e), Some(message)) => e.message@ == message,
            _ => false,
        },
    }
}

/// Reads a counter table.
pub fn parse_csv_counters(content: &str) -> (r: Result<ExportCountersReport, Failure>)
    ensures
        is_counter_table(r, encode_utf8(content@)),
{
    match parse_csv_bytes_with_limit(content.as_bytes(), MAX_COUNTER_EXPORT_ROWS) {
        Err(e) => Err(e),
        Ok(parsed) => counter_table_report(&parsed),
    }
}

/// The JSON value that `serde_json` reads from a text, as compact text, or the text of the
/// error.
pub uninterp spec fn json_value(s: Seq<char>) -> Result<Seq<char>, Seq<char>>;

/// `serde_json::from_str` to a `Value`, and the value as compact text. Both depend on the text
/// alone; what they are for a given text is left to the parser.
#[verifier::external_body]
fn read_json(s: &str) -> (r: Result<String, String>)
    ensures
        match r {
            Ok(json) => json_value(s@) == Ok::<Seq<char>, Seq<char>>(json@),
            Err(error) => json_value(s@) == Err::<Seq<char>, Seq<char>>(error@),
        },
{
    match serde_json::from_str::<serde_json::Value>(s) {
        Ok(value) => Ok(value.to_string()),
        Err(error) => Err(error.to_string()),
    }
}

/// The report on counters that were read as JSON.
pub fn counter_json_report(value: Result<String, String>) -> (r: Result<
    ExportCountersReport,
    Failure,
>)
    ensures
        match value {
            Err(error) => r is Err && r->Err_0.message@ == error@,
            Ok(json) => match size_problem(utf8_len(json@)) {
                Some(message) => r is Err && r->Err_0.message@ == message,
                None => r is Ok && r->Ok_0.returns_json(json@),
            },
        },
{
    match value {
        Err(error) => Err(Failure::new(error)),
        Ok(json) => {
            check_size(&json)?;
            Ok(
                ExportCountersReport {
                    success: true,
                    format: "json".to_string(),
                    columns: None,
                    row_count: None,
                    data: CounterData::Json(json),
                },
            )
        },
    }
}

/// Whether `r` returns the JSON value in `content`.
pub open spec fn is_counter_json(r: Result<ExportCountersReport, Failure>, content: Seq<char>) -> bool {
    match json_value(content) {
        Err(error) => r is Err && r->Err_0.message@ == error,
        Ok(json) => match size_problem(utf8_len(json)) {
            Some(message) => r is Err && r->Err_0.message@ == message,
            None => r is Ok && r->Ok_0.returns_json(json),
        },
    }
}

/// Reads counters from JSON.
pub fn parse_json_counters(content: &str) -> (r: Result<ExportCountersReport, Failure>)
    ensures
        is_counter_json(r, content@),
{
    counter_json_report(read_json(content))
}

/// `std::str::from_utf8`: the text of the bytes, where they are valid UTF-8.
#[verifier::external_body]
fn utf8_text(bytes: &[u8]) -> (r: Option<String>)
    ensures
        r is Some == valid_utf8(bytes@),
        r matches Some(text) ==> text@ == decode_utf8(bytes@),
{
    std::str::from_utf8(bytes).ok().map(str::to_string)
}

/// The contents of an exported counter file in the given format.
pub fn read_counters(format: CounterFormat, content: &str) -> (r: Result<
    ExportCountersReport,
    Failure,
>)
    ensures
        match format {
            CounterFormat::Csv => is_counter_table(r, encode_utf8(content@)),
            CounterFormat::Json => is_counter_json(r, content@),
        },
{
    match format {
        CounterFormat::Csv => parse_csv_counters(content),
        CounterFormat::Json => parse_json_counters(content),
    }
}

/// The contents of an exported counter file.
pub fn export_counters(path: &str, format: &Option<String>, bytes: &[u8]) -> (r: Result<
    ExportCountersReport,
    Failure,
>)
    ensures
        !valid_utf8(bytes@) ==> r is Err && r->Err_0.message@
            == "Counter export is not valid UTF-8"@,
        valid_utf8(bytes@) && format_name(optional_text(*format)) != "auto"@ ==> match counter_format_of(
            optional_text(*format),
            None,
        ) {
            Ok(CounterFormat::Csv) => is_counter_table(r, encode_utf8(decode_utf8(bytes@))),
            Ok(CounterFormat::Json) => is_counter_json(r, decode_utf8(bytes@)),
            Err(message) => r is Err && r->Err_0.message@ == message,
        },
        valid_utf8(bytes@) && is_settled(path@) ==> match counter_format_of(
            optional_text(*format),
            optional_extension(named_file(path@)),
        ) {
            Ok(CounterFormat::Csv) => is_counter_table(r, encode_utf8(decode_utf8(bytes@))),
            Ok(CounterFormat::Json) => is_counter_json(r, decode_utf8(bytes@)),
            Err(message) => r is Err && r->Err_0.message@ == message,
        },
{
    let content = match utf8_text(bytes) {
        Some(content) => content,
        None => {
            return Err(Failure::of("Counter export is not valid UTF-8"));
        },
    };
    match counter_format(format, &path_extension(path)) {
        Err(e) => Err(e),
        Ok(found) => read_counters(found, &content),
    }
}

/// A whole number in a cell is kept exactly, up to the largest that 64 bits hold: it never goes
/// through a floating-point number.
pub proof fn whole_numbers_are_kept_exactly(n: nat)
    requires
        n <= u64::MAX,
    ensures
        cell_of(decimal(n)) == if n <= i64::MAX {
            Cell::Signed(n as int)
        } else {
            Cell::Unsigned(n)
        },
{
    let s = decimal(n);
    decimal_reads_back(n, u64::MAX as nat);
    lemma_digits_are_trimmed(s);
    assert(s.contains(s[0]));
    assert(digit_value(s[0], 10) is Some);
    if n <= i64::MAX {
        decimal_reads_back(n, i64::MAX as nat);
    } else {
        assert(unsigned(s, 10, i64::MAX as nat) is None);
    }
}

proof fn lemma_digits_are_trimmed(s: Seq<char>)
    requires
        all_digits(s, 10),
    ensures
        trimmed(s) == s,
{
    assert(digit_value(s[0], 10) is Some);
    assert(digit_value(s[s.len() - 1], 10) is Some);
}

} // verus!
