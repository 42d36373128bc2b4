//! Event lists: pages, previews and what is reported about them.

use crate::budget::{
    element_sizes, fitting_count, fitting_items_keep_within_the_limit, json_array_len,
    lemma_fitting_count_is, total_of,
};
use crate::failure::Failure;
use crate::files::check_event_csv;
use crate::json::{
    json_array, json_array_text, json_bool, json_bool_text, json_text, json_text_len, quoted,
    quoted_len,
};
use crate::numbers::{decimal, decimal_text};
use crate::paths::{
    has_extension_ignore_ascii_case, is_settled, named_file, optional_has_extension,
};
use crate::tables::{
    any_blank, copy_texts, csv_header, csv_record_to_string, csv_rows, fields_exceed, fields_len,
    has_blank, is_table, missing_column_text, missing_event_column, parse_csv_bytes,
    read_csv_header, read_csv_rows, row_fields, rows_fields, strip_mark, table_in,
    validate_event_list_headers, without_mark, written_record, ParsedCsv, Table,
    MAX_ANALYSIS_CSV_ROWS,
};
use crate::text::{
    blank, byte_len, concat3, is_blank, join, joined, lemma_texts_push, optional_text, texts,
    utf8_len,
};
use vstd::prelude::*;
use vstd::string::*;

verus! {

/// How much detail a list returns inline.
#[derive(Debug, Clone, Copy, PartialEq, Eq, Structural)]
pub enum ResponseFormat {
    /// A small page.
    Summary,
    /// A larger page, still capped.
    Full,
}

impl ResponseFormat {
    /// The page size where the request names none.
    pub fn default_limit(self) -> (r: usize)
        ensures
            r == self.page_size(),
    {
        match self {
            ResponseFormat::Summary => 50,
            ResponseFormat::Full => 500,
        }
    }

    pub open spec fn page_size(self) -> usize {
        match self {
            ResponseFormat::Summary => 50,
            ResponseFormat::Full => 500,
        }
    }
}

pub const EVENT_LIST_MAX_LIMIT: usize = 2000;

pub const MAX_INLINE_EVENT_PAYLOAD_BYTES: usize = 1_048_576;

pub const MAX_ANALYZE_EVENTS_JSON_BYTES: usize = 524_288;

pub const MAX_ANALYZE_PREVIEW_ROW_BYTES: usize = 131_072;

pub const MAX_ANALYSIS_CSV_BYTES: u64 = 134_217_728;

/// A request for the event list of a capture.
#[derive(Debug)]
pub struct EventListArgs {
    pub capture_path: String,
    /// Where to save the full CSV. The rows are then not returned inline.
    pub output_path: Option<String>,
    /// The counters to collect, such as `*` or `D3D*`.
    pub counters: Option<String>,
    pub response_format: Option<ResponseFormat>,
    pub offset: Option<usize>,
    pub limit: Option<usize>,
}

/// A request for a preview of the events of a capture.
#[derive(Debug)]
pub struct AnalyzeCaptureArgs {
    pub capture_path: String,
    pub include_counters: Option<bool>,
    /// The counters to collect, such as `*` or `D3D*`.
    pub counter_pattern: Option<String>,
}

/// How many rows a page has at most. A page of no rows is refused.
pub fn event_list_limit(requested: Option<usize>, format: ResponseFormat) -> (r: Result<
    usize,
    Failure,
>)
    ensures
        ({
            let wanted = match requested {
                Some(n) => n,
                None => format.page_size(),
            };
            if wanted == 0 {
                r is Err && r->Err_0.message@ == "limit must be at least 1 (maximum 2000)"@
            } else {
                r is Ok && r->Ok_0 == if wanted < EVENT_LIST_MAX_LIMIT {
                    wanted
                } else {
                    EVENT_LIST_MAX_LIMIT
                }
            }
        }),
{
    let wanted: usize = match requested {
        Some(n) => n,
        None => format.default_limit(),
    };
    if wanted == 0 {
        return Err(Failure::of("limit must be at least 1 (maximum 2000)"));
    }
    if wanted < EVENT_LIST_MAX_LIMIT {
        Ok(wanted)
    } else {
        Ok(EVENT_LIST_MAX_LIMIT)
    }
}

pub open spec fn not_csv_text() -> Seq<char> {
    "output_path must end with .csv; refusing to risk overwriting a non-CSV file"@
}

/// Where the full CSV goes, if anywhere. Only a `.csv` file is written.
pub fn event_output_path(raw: Option<&str>) -> (r: Result<Option<String>, Failure>)
    ensures
        match raw {
            None => r == Ok::<Option<String>, Failure>(None),
            Some(path) => if is_blank(path@) {
                r is Err && r->Err_0.message@ == "output_path must not be empty"@
            } else {
                match r {
                    Ok(kept) => optional_text(kept) == Some(path@) && (is_settled(path@)
                        ==> optional_has_extension(named_file(path@), "csv"@)),
                    Err(e) => e.message@ == not_csv_text() && (is_settled(path@)
                        ==> !optional_has_extension(named_file(path@), "csv"@)),
                }
            },
        },
{
    match raw {
        None => Ok(None),
        Some(path) => {
            if blank(path) {
                return Err(Failure::of("output_path must not be empty"));
            }
            if !has_extension_ignore_ascii_case(path, "csv") {
                return Err(
                    Failure::of(
                        "output_path must end with .csv; refusing to risk overwriting a non-CSV file",
                    ),
                );
            }
            Ok(Some(path.to_string()))
        },
    }
}

// ---------------------------------------------------------------------------
// Reading an event list
// ---------------------------------------------------------------------------

/// The event list in `bytes`, or why there is none.
pub open spec fn event_list_in(bytes: Seq<u8>, path: Seq<char>) -> Result<Table, Seq<char>> {
    match table_in(bytes, MAX_ANALYSIS_CSV_ROWS as nat) {
        Err(message) => Err(message),
        Ok(contents) => event_list_of(contents, path),
    }
}

/// A table as an event list: it has the columns of one and at least one row.
pub open spec fn event_list_of(contents: Table, path: Seq<char>) -> Result<Table, Seq<char>> {
    match missing_event_column(contents.headers) {
        Some(column) => Err(missing_column_text(column)),
        None => if contents.records.len() == 0 {
            Err("CSV output contains a header but no data rows: "@ + path)
        } else {
            Ok(contents)
        },
    }
}

/// Accepts a table that is an event list with at least one event.
pub fn accept_event_list(parsed: ParsedCsv, path: &str) -> (r: Result<ParsedCsv, Failure>)
    ensures
        is_table(r, event_list_of(parsed@, path@)),
{
    match validate_event_list_headers(&parsed.headers) {
        Err(e) => {
            return Err(e);
        },
        Ok(_) => {},
    }
    if parsed.records.len() == 0 {
        let mut message = "CSV output contains a header but no data rows: ".to_string();
        message.append(path);
        return Err(Failure::new(message));
    }
    Ok(parsed)
}

/// Reads the event list that was written to `path`.
pub fn read_event_list(bytes: &[u8], path: &str) -> (r: Result<ParsedCsv, Failure>)
    ensures
        is_table(r, event_list_in(bytes@, path@)),
{
    match parse_csv_bytes(bytes) {
        Err(e) => Err(e),
        Ok(parsed) => accept_event_list(parsed, path),
    }
}

/// What is told of an event list that was saved to a file.
#[derive(Debug)]
pub struct EventCsvSummary {
    pub header: String,
    pub total_events: usize,
}

/// Counts the rows of an event list one by one, so that none has to be kept.
pub struct EventCsvInspection {
    pub header: String,
    pub total_events: usize,
}

impl EventCsvInspection {
    /// Starts with the header, which must be that of an event list.
    pub fn start(headers: Option<Vec<String>>) -> (r: Result<EventCsvInspection, Failure>)
        ensures
            match headers {
                None => r is Err && r->Err_0.message@ == "Invalid CSV header"@,
                Some(names) => if names.len() == 0 || has_blank(texts(names@)) {
                    r is Err && r->Err_0.message@
                        == "CSV file must contain non-empty header columns"@
                } else {
                    match missing_event_column(texts(names@)) {
                        Some(column) => r is Err && r->Err_0.message@ == missing_column_text(
                            column,
                        ),
                        None => r is Ok && r->Ok_0.total_events == 0 && r->Ok_0.header@
                            == written_record(texts(names@)),
                    }
                },
            },
    {
        let names = match headers {
            Some(names) => names,
            None => {
                return Err(Failure::of("Invalid CSV header"));
            },
        };
        if names.len() == 0 || any_blank(&names) {
            return Err(Failure::of("CSV file must contain non-empty header columns"));
        }
        match validate_event_list_headers(&names) {
            Err(e) => Err(e),
            Ok(_) => Ok(
                EventCsvInspection { header: csv_record_to_string(&names), total_events: 0 },
            ),
        }
    }

    /// Counts the next row, if it is a valid record.
    pub fn row(&mut self, valid: bool) -> (r: Result<(), Failure>)
        requires
            valid || old(self).total_events < usize::MAX,
        ensures
            final(self).header == old(self).header,
            valid && old(self).total_events < usize::MAX ==> r is Ok && final(self).total_events
                == old(self).total_events + 1,
            valid && old(self).total_events == usize::MAX ==> r is Err && r->Err_0.message@
                == "CSV row count overflow"@ && final(self).total_events == old(self).total_events,
            !valid ==> r is Err && r->Err_0.message@ == "Invalid CSV record at data row "@
                + decimal((old(self).total_events + 1) as nat) && final(self).total_events
                == old(self).total_events,
    {
        if !valid {
            let mut message = "Invalid CSV record at data row ".to_string();
            message.append(&decimal_text(self.total_events as u64 + 1));
            return Err(Failure::new(message));
        }
        if self.total_events == usize::MAX {
            return Err(Failure::of("CSV row count overflow"));
        }
        self.total_events += 1;
        Ok(())
    }

    /// Ends the count. `outgrown` says that the file went on beyond the size limit.
    pub fn finish(self, outgrown: bool, path: &str) -> (r: Result<EventCsvSummary, Failure>)
        ensures
            outgrown ==> r is Err && r->Err_0.message@
                == "CSV output grew beyond the maximum of 134217728 bytes while it was validated: "@
                + path@,
            !outgrown && self.total_events == 0 ==> r is Err && r->Err_0.message@
                == "CSV output contains a header but no data rows: "@ + path@,
            !outgrown && self.total_events > 0 ==> r is Ok && r->Ok_0.total_events
                == self.total_events && r->Ok_0.header == self.header,
    {
        if outgrown {
            let mut message =
                "CSV output grew beyond the maximum of 134217728 bytes while it was validated: ".to_string();
            message.append(path);
            return Err(Failure::new(message));
        }
        if self.total_events == 0 {
            let mut message = "CSV output contains a header but no data rows: ".to_string();
            message.append(path);
            return Err(Failure::new(message));
        }
        Ok(EventCsvSummary { header: self.header, total_events: self.total_events })
    }
}

/// What is wrong with the header of an event list, if anything.
pub open spec fn inspected_header_problem(header: Option<Seq<Seq<char>>>) -> Option<Seq<char>> {
    match header {
        None => Some("Invalid CSV header"@),
        Some(names) => if names.len() == 0 || has_blank(names) {
            Some("CSV file must contain non-empty header columns"@)
        } else {
            match missing_event_column(names) {
                Some(column) => Some(missing_column_text(column)),
                None => None,
            }
        },
    }
}

/// What is wrong with the rows of an event list, of which the first `done` are valid.
pub open spec fn inspected_row_problem(
    rows: Seq<Option<Seq<Seq<char>>>>,
    done: nat,
    path: Seq<char>,
) -> Option<Seq<char>>
    decreases rows.len() - done,
{
    if done < rows.len() {
        if rows[done as int] is None {
            Some("Invalid CSV record at data row "@ + decimal(done + 1))
        } else {
            inspected_row_problem(rows, done + 1, path)
        }
    } else if rows.len() == 0 {
        Some("CSV output contains a header but no data rows: "@ + path)
    } else {
        None
    }
}

/// What is wrong with the event list in `bytes`, if anything.
pub open spec fn inspection_problem(bytes: Seq<u8>, path: Seq<char>) -> Option<Seq<char>> {
    let rest = without_mark(bytes);
    if bytes.len() == 0 {
        Some("CSV output is missing or empty: "@ + path)
    } else if bytes.len() > MAX_ANALYSIS_CSV_BYTES {
        Some(
            "CSV output is too large ("@ + decimal(bytes.len()) + " bytes; maximum "@ + decimal(
                MAX_ANALYSIS_CSV_BYTES as nat,
            ) + "): "@ + path,
        )
    } else {
        match inspected_header_problem(csv_header(rest)) {
            Some(problem) => Some(problem),
            None => inspected_row_problem(csv_rows(rest), 0, path),
        }
    }
}

/// Checks the event list in `bytes`, which was saved to `path`, and counts its rows.
pub fn inspect_event_csv_bytes(bytes: &[u8], path: &str) -> (r: Result<EventCsvSummary, Failure>)
    ensures
        match (r, inspection_problem(bytes@, path@)) {
            (Ok(summary), None) => {
                &&& summary.header@ == written_record(csv_header(without_mark(bytes@))->0)
                &&& summary.total_events == csv_rows(without_mark(bytes@)).len()
            },
            (Err(e), Some(problem)) => e.message@ == problem,
            _ => false,
        },
{
    check_event_csv(path, true, bytes.len() as u64, MAX_ANALYSIS_CSV_BYTES)?;
    let rest = strip_mark(bytes);
    let mut inspection = EventCsvInspection::start(read_csv_header(rest))?;
    let rows = read_csv_rows(rest, rest.len() + 1);
    let ghost all = csv_rows(rest@);
    assert(rows_fields(rows@) =~= all);
    let mut i: usize = 0;
    while i < rows.len()
        invariant
            i <= rows.len(),
            rows_fields(rows@) == all,
            inspection_problem(bytes@, path@) == inspected_row_problem(all, 0, path@),
            inspection.total_events == i,
            inspection.header@ == written_record(csv_header(rest@)->0),
            inspected_row_problem(all, 0, path@) == inspected_row_problem(all, i as nat, path@),
        decreases rows.len() - i,
    {
        assert(all[i as int] == row_fields(rows@[i as int]));
        inspection.row(rows[i].is_some())?;
        i += 1;
    }
    inspection.finish(false, path)
}

// ---------------------------------------------------------------------------
// Pages
// ---------------------------------------------------------------------------

/// Every row as a text.
pub open spec fn written_rows(records: Seq<Seq<Seq<char>>>) -> Seq<Seq<char>> {
    records.map_values(|record: Seq<Seq<char>>| written_record(record))
}

/// One page of an event list.
pub struct EventPage {
    pub header: String,
    pub total_events: usize,
    pub offset: usize,
    pub rows: Vec<String>,
    pub byte_limited: bool,
}

/// The contents of a page.
pub struct Page {
    pub header: Seq<char>,
    pub total_events: nat,
    pub offset: nat,
    pub rows: Seq<Seq<char>>,
    pub byte_limited: bool,
}

impl View for EventPage {
    type V = Page;

    open spec fn view(&self) -> Page {
        Page {
            header: self.header@,
            total_events: self.total_events as nat,
            offset: self.offset as nat,
            rows: texts(self.rows@),
            byte_limited: self.byte_limited,
        }
    }
}

/// The smaller of two numbers.
pub open spec fn least(a: nat, b: nat) -> nat {
    if a < b {
        a
    } else {
        b
    }
}

/// The rows that a page may hold: at most `row_limit`, from `offset` on.
pub open spec fn window(contents: Table, offset: nat, row_limit: nat) -> Seq<Seq<char>> {
    let rows = written_rows(contents.records);
    rows.subrange(offset as int, least(rows.len(), offset + row_limit) as int)
}

/// What the header and the rest of the report take.
pub open spec fn page_overhead(contents: Table) -> nat {
    1024 + quoted_len(written_record(contents.headers))
}

/// How many rows of the window fit the inline budget.
pub open spec fn page_count(contents: Table, offset: nat, row_limit: nat) -> nat {
    fitting_count(
        element_sizes(window(contents, offset, row_limit)),
        page_overhead(contents),
        MAX_INLINE_EVENT_PAYLOAD_BYTES as nat,
    )
}

/// The page from row `requested` on.
pub open spec fn page_of(contents: Table, requested: nat, row_limit: nat) -> Result<
    Page,
    Seq<char>,
> {
    let total = contents.records.len();
    let offset = least(requested, total);
    let rows = window(contents, offset, row_limit);
    let n = page_count(contents, offset, row_limit);
    if page_overhead(contents) > MAX_INLINE_EVENT_PAYLOAD_BYTES {
        Err(
            "Event-list header is too large to return inline; pass output_path to save the CSV"@,
        )
    } else if n == 0 && rows.len() > 0 {
        Err(
            "Event-list row "@ + decimal(offset)
                + " is too large to return inline; pass output_path to save the CSV"@,
        )
    } else {
        Ok(
            Page {
                header: written_record(contents.headers),
                total_events: total,
                offset,
                rows: rows.take(n as int),
                byte_limited: n < rows.len(),
            },
        )
    }
}

/// Cuts one page out of an event list.
pub fn event_page(parsed: &ParsedCsv, requested_offset: usize, row_limit: usize) -> (r: Result<
    EventPage,
    Failure,
>)
    ensures
        match (r, page_of(parsed@, requested_offset as nat, row_limit as nat)) {
            (Ok(page), Ok(model)) => page@ == model,
            (Err(e), Err(message)) => e.message@ == message,
            _ => false,
        },
{
    broadcast use lemma_texts_push;

    let header = csv_record_to_string(&parsed.headers);
    let header_len: usize = json_text_len(&header);
    if header_len > MAX_INLINE_EVENT_PAYLOAD_BYTES - 1024 {
        return Err(
            Failure::of(
                "Event-list header is too large to return inline; pass output_path to save the CSV",
            ),
        );
    }
    let total: usize = parsed.records.len();
    let offset: usize = if requested_offset < total {
        requested_offset
    } else {
        total
    };
    let end: usize = if row_limit < total - offset {
        offset + row_limit
    } else {
        total
    };
    let ghost contents = parsed@;
    let ghost wanted = window(contents, offset as nat, row_limit as nat);
    let ghost sizes = element_sizes(wanted);
    let ghost base = page_overhead(contents);
    let mut rows: Vec<String> = Vec::new();
    let mut used: usize = 1024 + header_len;
    let mut i: usize = offset;
    assert(wanted.len() == end - offset);
    assert(texts(rows@) =~= wanted.take(0));
    while i < end
        invariant_except_break
            used <= MAX_INLINE_EVENT_PAYLOAD_BYTES,
            used == base + total_of(sizes, (i - offset) as nat),
        invariant
            offset <= i <= end <= parsed.records.len(),
            contents == parsed@,
            wanted == window(contents, offset as nat, row_limit as nat),
            wanted.len() == end - offset,
            sizes == element_sizes(wanted),
            texts(rows@) == wanted.take(i - offset),
            rows.len() == i - offset,
            base <= MAX_INLINE_EVENT_PAYLOAD_BYTES,
        ensures
            base + total_of(sizes, (i - offset) as nat) <= MAX_INLINE_EVENT_PAYLOAD_BYTES,
            i < end ==> base + total_of(sizes, (i - offset) as nat) + sizes[i - offset]
                > MAX_INLINE_EVENT_PAYLOAD_BYTES,
        decreases end - i,
    {
        let row = csv_record_to_string(&parsed.records[i]);
        assert(row@ == wanted[i - offset]) by {
            assert(contents.records[i as int] == texts(parsed.records@[i as int]@));
            assert(written_rows(contents.records)[i as int] == written_record(
                contents.records[i as int],
            ));
        }
        let size: usize = json_text_len(&row);
        assert(sizes[i - offset] == size + 1);
        if size >= MAX_INLINE_EVENT_PAYLOAD_BYTES - used {
            break;
        }
        used = used + (size + 1);
        rows.push(row);
        assert(wanted.take(i - offset + 1) =~= wanted.take(i - offset).push(wanted[i - offset]));
        i += 1;
    }
    proof {
        lemma_fitting_count_is(
            sizes,
            base,
            MAX_INLINE_EVENT_PAYLOAD_BYTES as nat,
            (i - offset) as nat,
        );
    }
    if i == offset && i < end {
        return Err(
            Failure::new(
                concat3(
                    "Event-list row ",
                    &decimal_text(offset as u64),
                    " is too large to return inline; pass output_path to save the CSV",
                ),
            ),
        );
    }
    Ok(EventPage { header, total_events: total, offset, rows, byte_limited: i < end })
}

/// A page holds the rows from its offset on, without a gap, and takes no more than the inline
/// budget; where rows are left and at least one was asked for, it holds at least one.
pub proof fn page_rows_are_contiguous(contents: Table, requested: nat, row_limit: nat)
    ensures
        page_of(contents, requested, row_limit) matches Ok(page) ==> {
            let all = written_rows(contents.records);
            &&& page.offset == least(requested, all.len())
            &&& page.offset + page.rows.len() <= all.len()
            &&& page.rows.len() <= row_limit
            &&& page.rows == all.subrange(
                page.offset as int,
                (page.offset + page.rows.len()) as int,
            )
            &&& page_overhead(contents) + total_of(element_sizes(page.rows), page.rows.len())
                <= MAX_INLINE_EVENT_PAYLOAD_BYTES
            &&& requested < all.len() && row_limit > 0 ==> page.rows.len() > 0
        },
{
    if let Ok(page) = page_of(contents, requested, row_limit) {
        let all = written_rows(contents.records);
        let rows = window(contents, page.offset, row_limit);
        let sizes = element_sizes(rows);
        let base = page_overhead(contents);
        let n = page_count(contents, page.offset, row_limit);
        fitting_items_keep_within_the_limit(sizes, base, MAX_INLINE_EVENT_PAYLOAD_BYTES as nat);
        assert(page.rows =~= all.subrange(page.offset as int, (page.offset + n) as int));
        lemma_total_of_prefix(sizes, element_sizes(page.rows), n);
    }
}

proof fn lemma_total_of_prefix(a: Seq<nat>, b: Seq<nat>, n: nat)
    requires
        n <= a.len(),
        n <= b.len(),
        forall|k: int| 0 <= k < n ==> a[k] == b[k],
    ensures
        total_of(a, n) == total_of(b, n),
    decreases n,
{
    if n > 0 {
        lemma_total_of_prefix(a, b, (n - 1) as nat);
    }
}

/// The rows of all pages, each page starting where the one before it ended; nothing where a
/// page is refused.
pub open spec fn paged_rows(contents: Table, offset: nat, row_limit: nat) -> Option<
    Seq<Seq<char>>,
>
    decreases contents.records.len() - offset,
{
    if offset >= contents.records.len() {
        Some(seq![])
    } else {
        match page_of(contents, offset, row_limit) {
            Err(_) => None,
            Ok(page) => if page.rows.len() == 0 || page.rows.len() > contents.records.len() - offset {
                None
            } else {
                match paged_rows(contents, offset + page.rows.len(), row_limit) {
                    Some(rest) => Some(page.rows + rest),
                    None => None,
                }
            },
        }
    }
}

/// Whether every row can be returned inline: beside the header, each is within the budget.
pub open spec fn every_row_fits(contents: Table) -> bool {
    &&& page_overhead(contents) <= MAX_INLINE_EVENT_PAYLOAD_BYTES
    &&& forall|i: int|
        0 <= i < contents.records.len() ==> page_overhead(contents) + quoted_len(
            written_record(#[trigger] contents.records[i]),
        ) + 1 <= MAX_INLINE_EVENT_PAYLOAD_BYTES
}

/// Following the pages from `offset` on gives every row from there on once, in order. No page is
/// refused where every row can be returned inline.
pub proof fn pages_cover_every_row_once(contents: Table, offset: nat, row_limit: nat)
    requires
        offset <= contents.records.len(),
    ensures
        paged_rows(contents, offset, row_limit) matches Some(rows) ==> rows == written_rows(
            contents.records,
        ).skip(offset as int),
        every_row_fits(contents) && row_limit > 0 ==> paged_rows(contents, offset, row_limit)
            is Some,
    decreases contents.records.len() - offset,
{
    let all = written_rows(contents.records);
    if offset < contents.records.len() {
        page_rows_are_contiguous(contents, offset, row_limit);
        if every_row_fits(contents) && row_limit > 0 {
            let rows = window(contents, offset, row_limit);
            assert(rows[0] == all[offset as int]);
            assert(all[offset as int] == written_record(contents.records[offset as int]));
            assert(element_sizes(rows)[0] == quoted_len(rows[0]) + 1);
            assert(page_count(contents, offset, row_limit) > 0);
            assert(page_of(contents, offset, row_limit) is Ok);
        }
        if let Ok(page) = page_of(contents, offset, row_limit) {
            let n = page.rows.len();
            if n > 0 {
                pages_cover_every_row_once(contents, offset + n, row_limit);
                if let Some(rest) = paged_rows(contents, offset + n, row_limit) {
                    assert(page.rows + rest =~= all.skip(offset as int));
                }
            }
        }
    } else {
        assert(all.skip(offset as int) =~= seq![]);
    }
}

/// The header, unless it is too large to return.
pub fn bounded_inline_header(header: String) -> (r: Option<String>)
    ensures
        optional_text(r) == if quoted_len(header@) + 1024 <= MAX_INLINE_EVENT_PAYLOAD_BYTES {
            Some(header@)
        } else {
            None
        },
{
    if json_text_len(&header) <= MAX_INLINE_EVENT_PAYLOAD_BYTES - 1024 {
        Some(header)
    } else {
        None
    }
}

/// What a request for an event list is answered.
#[derive(Debug)]
pub struct EventListReport {
    pub success: bool,
    /// Set where the event list was saved to a file.
    pub output_path: Option<String>,
    pub message: Option<String>,
    pub total_events: usize,
    pub offset: Option<usize>,
    pub returned: Option<usize>,
    /// Whether more rows follow this page.
    pub truncated: Option<bool>,
    /// Where the next page starts, if there is one.
    pub next_offset: Option<usize>,
    pub header: Option<String>,
    pub rows: Option<Vec<String>>,
}

/// The report on an event list that was saved to `output_path`.
pub fn saved_event_list_report(summary: EventCsvSummary, output_path: String) -> (r: EventListReport)
    ensures
        r.success,
        optional_text(r.output_path) == Some(output_path@),
        r.total_events == summary.total_events,
        r.offset is None && r.returned is None && r.truncated is None && r.next_offset is None
            && r.rows is None,
        optional_text(r.header) == if quoted_len(summary.header@) + 1024
            <= MAX_INLINE_EVENT_PAYLOAD_BYTES {
            Some(summary.header@)
        } else {
            None
        },
        optional_text(r.message) == Some(
            if r.header is Some {
                "Full event list saved to CSV"@
            } else {
                "Full event list saved to CSV; oversized header omitted from the inline report"@
            },
        ),
{
    let total_events: usize = summary.total_events;
    let header = bounded_inline_header(summary.header);
    let message = if header.is_some() {
        "Full event list saved to CSV".to_string()
    } else {
        "Full event list saved to CSV; oversized header omitted from the inline report".to_string()
    };
    EventListReport {
        success: true,
        output_path: Some(output_path),
        message: Some(message),
        total_events,
        offset: None,
        returned: None,
        truncated: None,
        next_offset: None,
        header,
        rows: None,
    }
}

/// What is said with a page that is not the last.
pub open spec fn page_message(page: Page) -> Seq<char> {
    let end = page.offset + page.rows.len();
    "Showing rows "@ + decimal(page.offset) + ".."@ + decimal(end) + " of "@ + decimal(
        page.total_events,
    ) + (if page.byte_limited {
        " (inline byte limit reached)"@
    } else {
        ""@
    }) + ". Pass offset="@ + decimal(end)
        + " for the next page, or output_path to save the full CSV."@
}

/// The report that returns a page inline.
pub fn page_report(page: EventPage) -> (r: EventListReport)
    requires
        page.offset + page.rows.len() <= page.total_events,
    ensures
        r.success,
        r.output_path is None,
        r.total_events == page.total_events,
        r.offset == Some(page.offset),
        r.returned == Some(page.rows.len()),
        r.header == Some(page.header),
        r.rows == Some(page.rows),
        ({
            let more = page.offset + page.rows.len() < page.total_events;
            &&& r.truncated == Some(more)
            &&& r.next_offset == if more {
                Some((page.offset + page.rows.len()) as usize)
            } else {
                None
            }
            &&& optional_text(r.message) == if more {
                Some(page_message(page@))
            } else {
                None
            }
        }),
{
    let returned: usize = page.rows.len();
    let end: usize = page.offset + returned;
    let truncated = end < page.total_events;
    let message = if truncated {
        let mut text = concat3("Showing rows ", &decimal_text(page.offset as u64), "..");
        text.append(&decimal_text(end as u64));
        text.append(" of ");
        text.append(&decimal_text(page.total_events as u64));
        text.append(if page.byte_limited {
            " (inline byte limit reached)"
        } else {
            ""
        });
        text.append(". Pass offset=");
        text.append(&decimal_text(end as u64));
        text.append(" for the next page, or output_path to save the full CSV.");
        assert(texts(page.rows@).len() == returned);
        Some(text)
    } else {
        None
    };
    EventListReport {
        success: true,
        output_path: None,
        message,
        total_events: page.total_events,
        offset: Some(page.offset),
        returned: Some(returned),
        truncated: Some(truncated),
        next_offset: if truncated {
            Some(end)
        } else {
            None
        },
        header: Some(page.header),
        rows: Some(page.rows),
    }
}

// ---------------------------------------------------------------------------
// Previews
// ---------------------------------------------------------------------------

/// One row of a preview: the record as a text, and its fields.
#[derive(Debug)]
pub struct PreviewRow {
    pub raw: String,
    pub fields: Vec<String>,
}

/// The first rows of an event list.
#[derive(Debug)]
pub struct EventsPreview {
    pub total_events: usize,
    pub header: String,
    pub preview: Vec<PreviewRow>,
    pub preview_truncated: bool,
}

/// A row of a preview as JSON.
pub open spec fn preview_json(fields: Seq<Seq<char>>) -> Seq<char> {
    "{\"fields\":"@ + json_array(fields) + ",\"raw\":"@ + quoted(written_record(fields)) + "}"@
}

/// A preview as JSON, given its rows as JSON.
pub open spec fn preview_of(
    total: nat,
    header: Seq<char>,
    rows: Seq<Seq<char>>,
    truncated: bool,
) -> Seq<char> {
    "{\"header\":"@ + quoted(header) + ",\"preview\":["@ + joined(rows, ","@)
        + "],\"preview_truncated\":"@ + json_bool(truncated) + ",\"total_events\":"@ + decimal(total)
        + "}"@
}

fn write_preview(total: usize, header: &str, rows: &Vec<String>, truncated: bool) -> (r: String)
    ensures
        r@ == preview_of(total as nat, header@, texts(rows@), truncated),
{
    let mut r = concat3("{\"header\":", &json_text(header), ",\"preview\":[");
    r.append(&join(rows, ","));
    r.append("],\"preview_truncated\":");
    r.append(json_bool_text(truncated));
    r.append(",\"total_events\":");
    r.append(&decimal_text(total as u64));
    r.append("}");
    r
}

/// A preview as JSON, given the records that it shows.
pub open spec fn events_json(
    total: nat,
    header: Seq<char>,
    rows: Seq<Seq<Seq<char>>>,
    truncated: bool,
) -> Seq<char> {
    preview_of(
        total,
        header,
        rows.map_values(|fields: Seq<Seq<char>>| preview_json(fields)),
        truncated,
    )
}

fn preview_text(raw: &str, fields: &Vec<String>) -> (r: String)
    ensures
        r@ == "{\"fields\":"@ + json_array(texts(fields@)) + ",\"raw\":"@ + quoted(raw@) + "}"@,
{
    let mut r = concat3("{\"fields\":", &json_array_text(fields), ",\"raw\":");
    r.append(&json_text(raw));
    r.append("}");
    r
}

impl PreviewRow {
    pub open spec fn json(&self) -> Seq<char> {
        "{\"fields\":"@ + json_array(texts(self.fields@)) + ",\"raw\":"@ + quoted(self.raw@) + "}"@
    }

    /// The row as JSON.
    pub fn to_json(&self) -> (r: String)
        ensures
            r@ == self.json(),
    {
        preview_text(&self.raw, &self.fields)
    }
}

/// The JSON of every row.
pub open spec fn row_jsons(rows: Seq<PreviewRow>) -> Seq<Seq<char>> {
    rows.map_values(|row: PreviewRow| row.json())
}

impl EventsPreview {
    pub open spec fn json(&self) -> Seq<char> {
        preview_of(
            self.total_events as nat,
            self.header@,
            row_jsons(self.preview@),
            self.preview_truncated,
        )
    }

    /// The preview as JSON.
    pub fn to_json(&self) -> (r: String)
        ensures
            r@ == self.json(),
    {
        broadcast use lemma_texts_push;

        let ghost all = row_jsons(self.preview@);
        let mut rows: Vec<String> = Vec::new();
        let mut i: usize = 0;
        assert(texts(rows@) =~= all.take(0));
        while i < self.preview.len()
            invariant
                i <= self.preview.len(),
                all == row_jsons(self.preview@),
                texts(rows@) == all.take(i as int),
            decreases self.preview.len() - i,
        {
            rows.push(self.preview[i].to_json());
            assert(all.take(i + 1) =~= all.take(i as int).push(all[i as int]));
            i += 1;
        }
        assert(all.take(i as int) =~= all);
        write_preview(self.total_events, &self.header, &rows, self.preview_truncated)
    }
}

/// How many records a preview shows at most.
pub const PREVIEW_ROWS: usize = 20;

/// The records that a preview may show.
pub open spec fn previewed(records: Seq<Seq<Seq<char>>>) -> Seq<Seq<Seq<char>>> {
    records.take(least(records.len(), PREVIEW_ROWS as nat) as int)
}

/// What each record takes in a preview. One whose fields are too large never fits.
pub open spec fn preview_sizes(records: Seq<Seq<Seq<char>>>) -> Seq<nat> {
    previewed(records).map_values(
        |fields: Seq<Seq<char>>|
            if fields_len(fields) > MAX_ANALYZE_PREVIEW_ROW_BYTES {
                (MAX_ANALYZE_EVENTS_JSON_BYTES + 1) as nat
            } else {
                utf8_len(preview_json(fields)) + 1
            },
    )
}

/// How many records are shown.
pub open spec fn preview_count(contents: Table) -> nat {
    fitting_count(
        preview_sizes(contents.records),
        quoted_len(written_record(contents.headers)) + 256,
        MAX_ANALYZE_EVENTS_JSON_BYTES as nat,
    )
}

/// The preview as JSON.
pub open spec fn summary_json(contents: Table) -> Seq<char> {
    let n = preview_count(contents);
    events_json(
        contents.records.len(),
        written_record(contents.headers),
        contents.records.take(n as int),
        n < contents.records.len(),
    )
}

impl EventsPreview {
    /// Whether this is the preview of `contents`.
    pub open spec fn shows(&self, contents: Table) -> bool {
        let n = preview_count(contents);
        &&& self.total_events == contents.records.len()
        &&& self.header@ == written_record(contents.headers)
        &&& self.preview.len() == n <= contents.records.len()
        &&& forall|i: int|
            0 <= i < n ==> texts((#[trigger] self.preview@[i]).fields@) == contents.records[i]
                && self.preview@[i].raw@ == written_record(contents.records[i])
        &&& self.preview_truncated == (n < contents.records.len())
    }
}

/// The JSON of a preview is the one that its size was checked by.
pub proof fn preview_has_its_json(preview: EventsPreview, contents: Table)
    requires
        preview.shows(contents),
    ensures
        preview.json() == summary_json(contents),
{
    let n = preview_count(contents);
    let shown = contents.records.take(n as int).map_values(
        |fields: Seq<Seq<char>>| preview_json(fields),
    );
    assert(row_jsons(preview.preview@) =~= shown) by {
        assert forall|i: int| 0 <= i < n implies row_jsons(preview.preview@)[i] == #[trigger] shown[i] by {
            assert(texts(preview.preview@[i].fields@) == contents.records[i]);
        }
    }
}

/// The first rows of an event list, as many as fit the preview's budget.
pub fn analyze_events_summary(parsed: &ParsedCsv) -> (r: Result<EventsPreview, Failure>)
    ensures
        if fields_len(parsed@.headers) > MAX_ANALYZE_PREVIEW_ROW_BYTES {
            r is Err && r->Err_0.message@
                == "Event-list header is too large to return in the analysis preview"@
        } else if utf8_len(summary_json(parsed@)) > MAX_ANALYZE_EVENTS_JSON_BYTES {
            r is Err && r->Err_0.message@
                == "Analysis preview exceeded its 524288 byte inline budget"@
        } else {
            r is Ok && r->Ok_0.shows(parsed@)
        },
{
    broadcast use lemma_texts_push;

    if fields_exceed(&parsed.headers, MAX_ANALYZE_PREVIEW_ROW_BYTES) {
        return Err(
            Failure::of("Event-list header is too large to return in the analysis preview"),
        );
    }
    let header = csv_record_to_string(&parsed.headers);
    let header_len: usize = json_text_len(&header);
    let ghost contents = parsed@;
    let ghost shown = previewed(contents.records);
    let ghost sizes = preview_sizes(contents.records);
    let ghost base = quoted_len(written_record(contents.headers)) + 256;
    let ghost limit = MAX_ANALYZE_EVENTS_JSON_BYTES as nat;
    let total: usize = parsed.records.len();
    let end: usize = if total < PREVIEW_ROWS {
        total
    } else {
        PREVIEW_ROWS
    };
    let mut preview: Vec<PreviewRow> = Vec::new();
    let mut row_texts: Vec<String> = Vec::new();
    let mut i: usize = 0;
    let ghost jsons = contents.records.map_values(|fields: Seq<Seq<char>>| preview_json(fields));
    assert(texts(row_texts@) =~= jsons.take(0));
    if header_len <= MAX_ANALYZE_EVENTS_JSON_BYTES - 256 {
        let mut used: usize = header_len + 256;
        while i < end
            invariant_except_break
                used <= MAX_ANALYZE_EVENTS_JSON_BYTES,
                used == base + total_of(sizes, i as nat),
            invariant
                i <= end <= parsed.records.len(),
                end <= PREVIEW_ROWS,
                contents == parsed@,
                shown == previewed(contents.records),
                shown.len() == end,
                sizes == preview_sizes(contents.records),
                jsons == contents.records.map_values(
                    |fields: Seq<Seq<char>>| preview_json(fields),
                ),
                preview.len() == i,
                texts(row_texts@) == jsons.take(i as int),
                forall|k: int|
                    0 <= k < i ==> texts((#[trigger] preview@[k]).fields@) == contents.records[k]
                        && preview@[k].raw@ == written_record(contents.records[k]),
            ensures
                base + total_of(sizes, i as nat) <= MAX_ANALYZE_EVENTS_JSON_BYTES,
                i < end ==> base + total_of(sizes, i as nat) + sizes[i as int]
                    > MAX_ANALYZE_EVENTS_JSON_BYTES,
            decreases end - i,
        {
            let record = &parsed.records[i];
            assert(contents.records[i as int] == texts(record@));
            assert(shown[i as int] == texts(record@));
            if fields_exceed(record, MAX_ANALYZE_PREVIEW_ROW_BYTES) {
                assert(sizes[i as int] == MAX_ANALYZE_EVENTS_JSON_BYTES + 1);
                break;
            }
            let raw = csv_record_to_string(record);
            let item = preview_text(&raw, record);
            let size: usize = byte_len(&item);
            assert(sizes[i as int] == size + 1);
            if size >= MAX_ANALYZE_EVENTS_JSON_BYTES - used {
                break;
            }
            used = used + (size + 1);
            row_texts.push(item);
            preview.push(PreviewRow { raw, fields: copy_texts(record) });
            assert(jsons.take(i + 1) =~= jsons.take(i as int).push(jsons[i as int]));
            i += 1;
        }
        proof {
            lemma_fitting_count_is(sizes, base, limit, i as nat);
        }
    } else {
        assert(fitting_count(sizes, base, limit) == 0);
    }
    let preview_truncated = i < total;
    let text = write_preview(total, &header, &row_texts, preview_truncated);
    proof {
        assert(jsons.take(i as int) =~= contents.records.take(i as int).map_values(
            |fields: Seq<Seq<char>>| preview_json(fields),
        ));
        assert(text@ == summary_json(contents));
    }
    if byte_len(&text) > MAX_ANALYZE_EVENTS_JSON_BYTES {
        return Err(Failure::of("Analysis preview exceeded its 524288 byte inline budget"));
    }
    Ok(EventsPreview { total_events: total, header, preview, preview_truncated })
}

/// Which counters a capture analysis collects, if any.
pub fn analyze_counter_pattern(args: &AnalyzeCaptureArgs) -> (r: Result<Option<String>, Failure>)
    ensures
        ({
            let pattern = match args.counter_pattern {
                Some(pattern) => pattern@,
                None => "*"@,
            };
            if args.include_counters != Some(true) {
                r is Ok && r->Ok_0 is None
            } else if is_blank(pattern) {
                r is Err && r->Err_0.message@ == "counter_pattern must not be empty"@
            } else {
                r is Ok && optional_text(r->Ok_0) == Some(pattern)
            }
        }),
{
    let wanted = match args.include_counters {
        Some(wanted) => wanted,
        None => false,
    };
    if !wanted {
        return Ok(None);
    }
    let pattern = match &args.counter_pattern {
        Some(pattern) => pattern.clone(),
        None => "*".to_string(),
    };
    if blank(&pattern) {
        return Err(Failure::of("counter_pattern must not be empty"));
    }
    Ok(Some(pattern))
}

/// Which counters an event list holds, if any.
pub fn event_list_counters(args: &EventListArgs) -> (r: Result<Option<String>, Failure>)
    ensures
        match args.counters {
            None => r is Ok && r->Ok_0 is None,
            Some(pattern) => if is_blank(pattern@) {
                r is Err && r->Err_0.message@ == "counters must not be empty"@
            } else {
                r is Ok && optional_text(r->Ok_0) == Some(pattern@)
            },
        },
{
    match &args.counters {
        None => Ok(None),
        Some(pattern) => {
            if blank(pattern) {
                return Err(Failure::of("counters must not be empty"));
            }
            Ok(Some(pattern.clone()))
        },
    }
}

/// A page that is returned, with its header, takes no more JSON than the inline budget leaves
/// beside the rest of the report.
pub proof fn pages_fit_the_inline_budget(contents: Table, requested: nat, row_limit: nat)
    ensures
        page_of(contents, requested, row_limit) matches Ok(page) ==> quoted_len(page.header)
            + utf8_len(json_array(page.rows)) + 1022 <= MAX_INLINE_EVENT_PAYLOAD_BYTES,
{
    if let Ok(page) = page_of(contents, requested, row_limit) {
        page_rows_are_contiguous(contents, requested, row_limit);
        json_array_len(page.rows);
    }
}

} // verus!
