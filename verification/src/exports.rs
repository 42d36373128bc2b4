//! Event lists that were exported for a comparison.

use crate::columns::{column_at, duration_column_at, event_column, gpu_duration_column};
use crate::events::least;
use crate::failure::Failure;
use crate::finite::{finite_number, read_finite};
use crate::numbers::{decimal, decimal_text};
use crate::sequences::{ComparisonCsv, ComparisonEvent, EventIdentity, Kind};
use crate::tables::{
    all_normalized, csv_header, csv_rows, fields_exceed, fields_len, missing_column_text,
    missing_event_column, read_csv_header, read_csv_rows, row_fields, rows_fields, strip_mark,
    validate_event_list_headers, without_mark, MAX_ANALYSIS_CSV_ROWS,
};
use crate::text::{
    byte_len, concat3, lower_ascii, optional_text, same_ignoring_case, texts, trim, trimmed,
    utf8_len,
};
use vstd::prelude::*;
use vstd::string::*;

verus! {

pub const MAX_COMPARE_COLUMNS: usize = 4_096;

pub const MAX_COMPARE_HEADER_BYTES: usize = 524_288;

pub const MAX_COMPARE_EVENT_FIELD_BYTES: usize = 4_096;

/// Whether a header is too large to compare.
pub open spec fn header_exceeds(headers: Seq<Seq<char>>) -> bool {
    ||| headers.len() > MAX_COMPARE_COLUMNS
    ||| fields_len(headers) > MAX_COMPARE_HEADER_BYTES
    ||| exists|i: int|
        0 <= i < headers.len() && utf8_len(#[trigger] headers[i]) > MAX_COMPARE_EVENT_FIELD_BYTES
}

fn header_too_large(headers: &Vec<String>) -> (r: bool)
    ensures
        r == header_exceeds(texts(headers@)),
{
    let ghost model = texts(headers@);
    if headers.len() > MAX_COMPARE_COLUMNS || fields_exceed(headers, MAX_COMPARE_HEADER_BYTES) {
        return true;
    }
    let mut i: usize = 0;
    while i < headers.len()
        invariant
            i <= headers.len(),
            headers.len() <= MAX_COMPARE_COLUMNS,
            model == texts(headers@),
            fields_len(model) <= MAX_COMPARE_HEADER_BYTES,
            forall|k: int|
                0 <= k < i ==> utf8_len(#[trigger] model[k]) <= MAX_COMPARE_EVENT_FIELD_BYTES,
        decreases headers.len() - i,
    {
        assert(model[i as int] == headers@[i as int]@);
        if byte_len(&headers[i]) > MAX_COMPARE_EVENT_FIELD_BYTES {
            return true;
        }
        i += 1;
    }
    false
}

/// The field at `at`; nothing where the row has no such field.
pub open spec fn field_at(row: Seq<Seq<char>>, at: int) -> Seq<char> {
    if at < row.len() {
        row[at]
    } else {
        seq![]
    }
}

/// The kind of the event in a row.
pub open spec fn kind_in(headers: Seq<Seq<char>>, row: Seq<Seq<char>>) -> Kind {
    Kind {
        queue_id: trimmed(field_at(row, column_at(headers, "Queue ID"@))),
        name: trimmed(field_at(row, column_at(headers, "Name"@))),
    }
}

/// The bits of the GPU duration in a row, where it has a finite one.
pub open spec fn duration_in(headers: Seq<Seq<char>>, row: Seq<Seq<char>>) -> Option<u64> {
    let at = duration_column_at(headers);
    if at < headers.len() && at < row.len() {
        match finite_number(trimmed(row[at])) {
            Some(number) => Some(number.0),
            None => None,
        }
    } else {
        None
    }
}

/// What is wrong with the row that is the `index`-th, if anything.
pub open spec fn row_problem(
    headers: Seq<Seq<char>>,
    row: Option<Seq<Seq<char>>>,
    index: nat,
    max_events: nat,
) -> Option<Seq<char>> {
    if index >= MAX_ANALYSIS_CSV_ROWS {
        Some("Event-list CSV contains more than the supported maximum of 250000 rows"@)
    } else {
        match row {
            None => Some("Invalid event-list CSV record at row "@ + decimal(index + 1)),
            Some(fields) => {
                let kind = kind_in(headers, fields);
                if index < max_events && (utf8_len(kind.queue_id) > MAX_COMPARE_EVENT_FIELD_BYTES
                    || utf8_len(kind.name) > MAX_COMPARE_EVENT_FIELD_BYTES) {
                    Some(
                        "Event "@ + decimal(index + 1)
                            + " contains a queue/name field larger than the comparison limit of 4096 bytes"@,
                    )
                } else {
                    None
                }
            },
        }
    }
}

/// The first problem among the rows from `index` on.
pub open spec fn first_problem(
    headers: Seq<Seq<char>>,
    rows: Seq<Option<Seq<Seq<char>>>>,
    index: nat,
    max_events: nat,
) -> Option<Seq<char>>
    decreases rows.len() - index,
{
    if index >= rows.len() {
        None
    } else {
        match row_problem(headers, rows[index as int], index, max_events) {
            Some(problem) => Some(problem),
            None => first_problem(headers, rows, index + 1, max_events),
        }
    }
}

/// What is wrong with a header, if anything.
pub open spec fn header_problem(header: Option<Seq<Seq<char>>>) -> Option<Seq<char>> {
    match header {
        None => Some("Invalid event-list CSV header"@),
        Some(headers) => match missing_event_column(headers) {
            Some(column) => Some(missing_column_text(column)),
            None => if header_exceeds(headers) {
                Some(
                    "Event-list header exceeds comparison limits (4096 columns, 524288 total bytes, 4096 bytes per column)"@,
                )
            } else {
                None
            },
        },
    }
}

/// What is wrong with an exported event list, if anything.
pub open spec fn export_problem(
    header: Option<Seq<Seq<char>>>,
    rows: Seq<Option<Seq<Seq<char>>>>,
    max_events: nat,
) -> Option<Seq<char>> {
    match header_problem(header) {
        Some(problem) => Some(problem),
        None => match first_problem(header->0, rows, 0, max_events) {
            Some(problem) => Some(problem),
            None => if rows.len() == 0 {
                Some("Event-list CSV contains no events"@)
            } else {
                None
            },
        },
    }
}

impl ComparisonCsv {
    /// Whether this is what is kept of `rows`.
    pub open spec fn keeps(
        &self,
        headers: Seq<Seq<char>>,
        rows: Seq<Option<Seq<Seq<char>>>>,
        max_events: nat,
    ) -> bool {
        &&& texts(self.headers@) == headers
        &&& self.total_events == rows.len()
        &&& self.events.len() == least(rows.len(), max_events)
        &&& forall|i: int|
            0 <= i < self.events.len() ==> (#[trigger] self.events@[i]).identity@ == kind_in(
                headers,
                rows[i]->0,
            ) && self.events@[i].gpu_duration == duration_in(headers, rows[i]->0)
        &&& optional_text(self.gpu_duration_column) == if duration_column_at(headers)
            < headers.len() {
            Some(trimmed(headers[duration_column_at(headers)]))
        } else {
            None
        }
    }
}

/// An event list that is being read row by row.
pub struct ComparisonReader {
    csv: ComparisonCsv,
    queue_column: usize,
    name_column: usize,
    duration_column: Option<usize>,
    max_events: usize,
}

impl ComparisonReader {
    /// Whether this reader has taken `rows`, none of which had a problem.
    pub closed spec fn has_read(
        &self,
        headers: Seq<Seq<char>>,
        rows: Seq<Option<Seq<Seq<char>>>>,
        max_events: nat,
    ) -> bool {
        &&& self.csv.keeps(headers, rows, max_events)
        &&& self.csv.wf()
        &&& self.max_events == max_events
        &&& self.queue_column == column_at(headers, "Queue ID"@)
        &&& self.name_column == column_at(headers, "Name"@)
        &&& match self.duration_column {
            Some(at) => at == duration_column_at(headers) < headers.len(),
            None => duration_column_at(headers) == headers.len(),
        }
        &&& forall|i: int|
            0 <= i < rows.len() ==> row_problem(
                headers,
                #[trigger] rows[i],
                i as nat,
                max_events,
            ) is None
    }

    /// Starts with the header.
    pub fn start(header: Option<Vec<String>>, max_events: usize) -> (r: Result<
        ComparisonReader,
        Failure,
    >)
        ensures
            match (r, header_problem(row_fields(header))) {
                (Ok(reader), None) => reader.has_read(
                    row_fields(header)->0,
                    Seq::empty(),
                    max_events as nat,
                ),
                (Err(e), Some(problem)) => e.message@ == problem,
                _ => false,
            },
    {
        let headers = match header {
            Some(headers) => headers,
            None => {
                return Err(Failure::of("Invalid event-list CSV header"));
            },
        };
        match validate_event_list_headers(&headers) {
            Err(e) => {
                return Err(e);
            },
            Ok(_) => {},
        }
        if header_too_large(&headers) {
            return Err(
                Failure::of(
                    "Event-list header exceeds comparison limits (4096 columns, 524288 total bytes, 4096 bytes per column)",
                ),
            );
        }
        proof {
            lemma_event_list_has_columns(texts(headers@));
        }
        let queue_column = event_column(&headers, "Queue ID")?;
        let name_column = event_column(&headers, "Name")?;
        let (duration_column, gpu_duration_column) = match gpu_duration_column(&headers) {
            Some((at, name)) => (Some(at), Some(name)),
            None => (None, None),
        };
        Ok(
            ComparisonReader {
                csv: ComparisonCsv {
                    headers,
                    events: Vec::new(),
                    total_events: 0,
                    gpu_duration_column,
                },
                queue_column,
                name_column,
                duration_column,
                max_events,
            },
        )
    }

    /// Takes the next row.
    pub fn row(&mut self, row: Option<Vec<String>>) -> (r: Result<(), Failure>)
        requires
            exists|
                headers: Seq<Seq<char>>,
                rows: Seq<Option<Seq<Seq<char>>>>,
                max_events: nat,
            | #[trigger] old(self).has_read(headers, rows, max_events),
        ensures
            forall|
                headers: Seq<Seq<char>>,
                rows: Seq<Option<Seq<Seq<char>>>>,
                max_events: nat,
            | #[trigger]
                old(self).has_read(headers, rows, max_events) ==> match (
                    r,
                    row_problem(headers, row_fields(row), rows.len(), max_events),
                ) {
                    (Ok(_), None) => final(self).has_read(
                        headers,
                        rows.push(row_fields(row)),
                        max_events,
                    ),
                    (Err(e), Some(problem)) => e.message@ == problem,
                    _ => false,
                },
    {
        let ghost before = *self;
        if self.csv.total_events >= MAX_ANALYSIS_CSV_ROWS {
            return Err(
                Failure::of(
                    "Event-list CSV contains more than the supported maximum of 250000 rows",
                ),
            );
        }
        let fields = match row {
            Some(fields) => fields,
            None => {
                let mut message = "Invalid event-list CSV record at row ".to_string();
                message.append(&decimal_text(self.csv.total_events as u64 + 1));
                return Err(Failure::new(message));
            },
        };
        if self.csv.events.len() < self.max_events {
            let queue_id = trimmed_field(&fields, self.queue_column);
            let name = trimmed_field(&fields, self.name_column);
            if byte_len(&queue_id) > MAX_COMPARE_EVENT_FIELD_BYTES || byte_len(&name)
                > MAX_COMPARE_EVENT_FIELD_BYTES {
                return Err(
                    Failure::new(
                        concat3(
                            "Event ",
                            &decimal_text(self.csv.total_events as u64 + 1),
                            " contains a queue/name field larger than the comparison limit of 4096 bytes",
                        ),
                    ),
                );
            }
            let gpu_duration: Option<u64> = match self.duration_column {
                Some(at) => if at < fields.len() {
                    match read_finite(&trim(&fields[at])) {
                        Some(number) => Some(number.bits),
                        None => None,
                    }
                } else {
                    None
                },
                None => None,
            };
            self.csv.events.push(
                ComparisonEvent { identity: EventIdentity { queue_id, name }, gpu_duration },
            );
        }
        self.csv.total_events += 1;
        proof {
            assert forall|
                headers: Seq<Seq<char>>,
                rows: Seq<Option<Seq<Seq<char>>>>,
                max_events: nat,
            | #[trigger] before.has_read(headers, rows, max_events) implies self.has_read(
                headers,
                rows.push(row_fields(row)),
                max_events,
            ) by {
                let now = rows.push(row_fields(row));
                assert(texts(fields@).len() == fields.len());
                assert forall|i: int| 0 <= i < self.csv.events.len() implies (
                #[trigger] self.csv.events@[i]).identity@ == kind_in(headers, now[i]->0)
                    && self.csv.events@[i].gpu_duration == duration_in(headers, now[i]->0) by {
                    if i < before.csv.events.len() {
                        assert(self.csv.events@[i] == before.csv.events@[i]);
                        assert(now[i] == rows[i]);
                    } else {
                        assert(now[i] == row_fields(row));
                    }
                }
                assert forall|i: int| 0 <= i < now.len() implies row_problem(
                    headers,
                    #[trigger] now[i],
                    i as nat,
                    max_events,
                ) is None by {
                    if i < rows.len() {
                        assert(now[i] == rows[i]);
                    }
                }
            }
        }
        Ok(())
    }

    /// Ends the reading. A list without events is refused.
    pub fn finish(self) -> (r: Result<ComparisonCsv, Failure>)
        ensures
            forall|
                headers: Seq<Seq<char>>,
                rows: Seq<Option<Seq<Seq<char>>>>,
                max_events: nat,
            | #[trigger]
                self.has_read(headers, rows, max_events) ==> {
                    if rows.len() == 0 {
                        r is Err && r->Err_0.message@ == "Event-list CSV contains no events"@
                    } else {
                        r is Ok && r->Ok_0.keeps(headers, rows, max_events) && r->Ok_0.wf()
                    }
                },
    {
        if self.csv.total_events == 0 {
            return Err(Failure::of("Event-list CSV contains no events"));
        }
        Ok(self.csv)
    }
}

fn trimmed_field(fields: &Vec<String>, at: usize) -> (r: String)
    ensures
        r@ == trimmed(field_at(texts(fields@), at as int)),
{
    if at < fields.len() {
        trim(&fields[at])
    } else {
        assert(trimmed(Seq::<char>::empty()) =~= Seq::<char>::empty());
        assert(field_at(texts(fields@), at as int) =~= Seq::<char>::empty());
        String::new()
    }
}

proof fn lemma_column_found(headers: Seq<Seq<char>>, expected: Seq<char>, key: Seq<char>)
    requires
        key == lower_ascii(expected),
        all_normalized(headers).contains(key),
    ensures
        0 <= column_at(headers, expected) < headers.len(),
    decreases headers.len(),
{
    let known = all_normalized(headers);
    let k = choose|k: int| 0 <= k < known.len() && known[k] == key;
    if !same_ignoring_case(trimmed(headers[0]), expected) {
        let rest = headers.subrange(1, headers.len() as int);
        assert(k > 0);
        assert(all_normalized(rest)[k - 1] == key);
        lemma_column_found(rest, expected, key);
    }
}

/// The columns that an event list must have are found by their names.
proof fn lemma_event_list_has_columns(headers: Seq<Seq<char>>)
    requires
        missing_event_column(headers) is None,
    ensures
        0 <= column_at(headers, "Queue ID"@) < headers.len(),
        0 <= column_at(headers, "Name"@) < headers.len(),
{
    reveal_strlit("Queue ID");
    reveal_strlit("queue id");
    reveal_strlit("Name");
    reveal_strlit("name");
    assert(lower_ascii("Queue ID"@) =~= "queue id"@);
    assert(lower_ascii("Name"@) =~= "name"@);
    lemma_column_found(headers, "Queue ID"@, "queue id"@);
    lemma_column_found(headers, "Name"@, "name"@);
}

proof fn lemma_first_problem_from(
    headers: Seq<Seq<char>>,
    rows: Seq<Option<Seq<Seq<char>>>>,
    index: nat,
    max_events: nat,
)
    requires
        index <= rows.len(),
        forall|i: int|
            0 <= i < index ==> row_problem(headers, #[trigger] rows[i], i as nat, max_events) is None,
    ensures
        first_problem(headers, rows, 0, max_events) == first_problem(
            headers,
            rows,
            index,
            max_events,
        ),
    decreases index,
{
    if index > 0 {
        lemma_first_problem_from(headers, rows, (index - 1) as nat, max_events);
        assert(row_problem(headers, rows[index - 1], (index - 1) as nat, max_events) is None);
    }
}

/// Whether `r` is what reading the header and the rows gives.
pub open spec fn is_export(
    r: Result<ComparisonCsv, Failure>,
    header: Option<Seq<Seq<char>>>,
    rows: Seq<Option<Seq<Seq<char>>>>,
    max_events: nat,
) -> bool {
    match (r, export_problem(header, rows, max_events)) {
        (Ok(csv), None) => csv.keeps(header->0, rows, max_events) && csv.wf(),
        (Err(e), Some(problem)) => e.message@ == problem,
        _ => false,
    }
}

/// Reads an exported event list that was split into records.
pub fn comparison_from_rows(
    header: Option<Vec<String>>,
    rows: Vec<Option<Vec<String>>>,
    max_events: usize,
) -> (r: Result<ComparisonCsv, Failure>)
    ensures
        is_export(r, row_fields(header), rows_fields(rows@), max_events as nat),
{
    let ghost names = row_fields(header);
    let ghost all = rows_fields(rows@);
    let ghost limit = max_events as nat;
    let mut reader = match ComparisonReader::start(header, max_events) {
        Ok(reader) => reader,
        Err(e) => {
            return Err(e);
        },
    };
    let mut rest = rows;
    let mut backwards: Vec<Option<Vec<String>>> = Vec::new();
    while rest.len() > 0
        invariant
            rest@.len() <= rows@.len(),
            rest@ == rows@.take(rest@.len() as int),
            backwards@.len() == rows@.len() - rest@.len(),
            forall|k: int|
                0 <= k < backwards@.len() ==> #[trigger] backwards@[k] == rows@[rows@.len() - 1
                    - k],
        decreases rest.len(),
    {
        if let Some(row) = rest.pop() {
            backwards.push(row);
        }
        assert(rest@ =~= rows@.take(rest@.len() as int));
    }
    assert(all.take(0) =~= Seq::empty());
    while backwards.len() > 0
        invariant
            names is Some,
            header_problem(names) is None,
            all == rows_fields(rows@),
            limit == max_events,
            backwards@.len() <= rows@.len(),
            forall|k: int|
                0 <= k < backwards@.len() ==> #[trigger] backwards@[k] == rows@[rows@.len() - 1
                    - k],
            reader.has_read(names->0, all.take(all.len() - backwards@.len()), limit),
            forall|i: int|
                0 <= i < all.len() - backwards@.len() ==> row_problem(
                    names->0,
                    #[trigger] all[i],
                    i as nat,
                    limit,
                ) is None,
            names == row_fields(header),
        decreases backwards.len(),
    {
        let ghost done = all.len() - backwards@.len();
        if let Some(row) = backwards.pop() {
            assert(all[done] == row_fields(row));
            assert(all.take(done + 1) =~= all.take(done).push(row_fields(row)));
            proof {
                lemma_first_problem_from(names->0, all, done as nat, limit);
            }
            let taken = reader.row(row);
            if let Err(e) = taken {
                return Err(e);
            }
        }
    }
    assert(all.take(all.len() as int) =~= all);
    proof {
        lemma_first_problem_from(names->0, all, all.len(), limit);
    }
    reader.finish()
}

/// Dropping rows behind the one after the last that counts does not change the result.
proof fn lemma_export_of_taken(
    headers: Seq<Seq<char>>,
    rows: Seq<Option<Seq<Seq<char>>>>,
    index: nat,
    max_events: nat,
    n: int,
)
    requires
        MAX_ANALYSIS_CSV_ROWS < n <= rows.len(),
        index <= MAX_ANALYSIS_CSV_ROWS,
    ensures
        first_problem(headers, rows.take(n), index, max_events) == first_problem(
            headers,
            rows,
            index,
            max_events,
        ),
        first_problem(headers, rows, index, max_events) is Some,
    decreases MAX_ANALYSIS_CSV_ROWS - index,
{
    let some = rows.take(n);
    assert(some[index as int] == rows[index as int]);
    if row_problem(headers, rows[index as int], index, max_events) is None {
        lemma_export_of_taken(headers, rows, index + 1, max_events, n);
    }
}

/// What is wrong with the event list in `bytes`, if anything.
pub open spec fn export_in(bytes: Seq<u8>) -> (Option<Seq<Seq<char>>>, Seq<Option<Seq<Seq<char>>>>) {
    (csv_header(without_mark(bytes)), csv_rows(without_mark(bytes)))
}

/// Reads an exported event list, keeping at most `max_events` events.
pub fn parse_comparison_csv_bytes(bytes: &[u8], max_events: usize) -> (r: Result<
    ComparisonCsv,
    Failure,
>)
    ensures
        if without_mark(bytes@).len() == 0 {
            r is Err && r->Err_0.message@ == "Empty event-list CSV"@
        } else {
            is_export(r, export_in(bytes@).0, export_in(bytes@).1, max_events as nat)
        },
{
    let rest = strip_mark(bytes);
    if rest.len() == 0 {
        return Err(Failure::of("Empty event-list CSV"));
    }
    let header = read_csv_header(rest);
    let rows = read_csv_rows(rest, MAX_ANALYSIS_CSV_ROWS + 1);
    proof {
        let all = csv_rows(rest@);
        if all.len() > MAX_ANALYSIS_CSV_ROWS {
            if header_problem(csv_header(rest@)) is None {
                lemma_export_of_taken(
                    csv_header(rest@)->0,
                    all,
                    0,
                    max_events as nat,
                    MAX_ANALYSIS_CSV_ROWS + 1,
                );
            }
        } else {
            assert(all.take(all.len() as int) =~= all);
        }
    }
    comparison_from_rows(header, rows, max_events)
}

} // verus!
