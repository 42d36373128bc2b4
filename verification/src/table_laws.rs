//! What holds of tables: how rows are read and written, how columns are found, and what cells hold.

use crate::columns::{
    column_at, columns_missing_from, columns_only_in, duration_column_at, is_duration_column,
    shown_as,
};
use crate::counters::{
    all_lower, cell_of, cells_of, counter_format_of, counter_table_problem, data_cells,
    first_repetition, has_repetition, row_cells, size_problem, Cell, CounterFormat,
    ExportCountersReport,
};
use crate::exports::{duration_in, first_problem, kind_in, row_problem};
use crate::finite::finite_number;
use crate::frame::{all_trimmed, live_rows};
use crate::frame_laws::{holds_something, rows_that_hold_something_are_kept};
use crate::numbers::{decimal, decimal_reads_back, number, signed, unsigned};
use crate::order::{distinct_sorted, distinct_sorted_has_the_same_texts};
use crate::tables::{
    all_normalized, doubled, fields_len, has_blank, lemma_valid_prefix, lemma_valid_prefix_is,
    missing_event_column, normalized, table_of, valid_prefix, without_mark, written_field,
    written_record, Table,
};
use crate::text::{
    is_blank, is_white_space, joined, lower_ascii, same_ignoring_case, starts_with, texts,
    trim_start, trimmed, unicode_lower, utf8_len,
};
use crate::text_laws::{
    parts_are_found_anywhere, trimmed_texts_begin_and_end_with_something,
    trimming_takes_white_space_off,
};
use vstd::prelude::*;
use vstd::string::*;

verus! {

/// A column is found by its name, up to case and the white space around it: the first that is
/// called so.
pub proof fn columns_are_found_by_their_names(headers: Seq<Seq<char>>, name: Seq<char>)
    ensures
        0 <= column_at(headers, name) <= headers.len(),
        forall|i: int|
            0 <= i < column_at(headers, name) ==> lower_ascii(trimmed(#[trigger] headers[i]))
                != lower_ascii(name),
        column_at(headers, name) < headers.len() ==> lower_ascii(
            trimmed(headers[column_at(headers, name)]),
        ) == lower_ascii(name),
    decreases headers.len(),
{
    if headers.len() > 0 && !same_ignoring_case(trimmed(headers[0]), name) {
        let rest = headers.subrange(1, headers.len() as int);
        columns_are_found_by_their_names(rest, name);
        assert forall|i: int| 0 <= i < column_at(headers, name) implies lower_ascii(
            trimmed(#[trigger] headers[i]),
        ) != lower_ascii(name) by {
            if i > 0 {
                assert(rest[i - 1] == headers[i]);
            }
        }
    }
}

/// A label stands for GPU durations where it is `gpu duration` or `gpu time`, up to case and the
/// white space around it, or has a unit in brackets behind that; nothing else may follow.
pub proof fn durations_are_labelled(header: Seq<char>, rest: Seq<char>)
    ensures
        ({
            let unit = trim_start(rest);
            let bracketed = unit.len() > 0 && (unit[0] == '(' || unit[0] == '[');
            let low = lower_ascii(trimmed(header));
            &&& low == "gpu duration"@ + rest ==> (is_duration_column(header) <==> rest.len() == 0
                || bracketed)
            &&& low == "gpu time"@ + rest ==> (is_duration_column(header) <==> rest.len() == 0
                || bracketed)
        }),
        is_duration_column(header) ==> starts_with(lower_ascii(trimmed(header)), "gpu duration"@)
            || starts_with(lower_ascii(trimmed(header)), "gpu time"@),
{
    let low = normalized(header);
    let none = Seq::<char>::empty();
    reveal_strlit("gpu duration");
    reveal_strlit("gpu time");
    parts_are_found_anywhere(none, "gpu duration"@, rest);
    parts_are_found_anywhere(none, "gpu time"@, rest);
    parts_are_found_anywhere(none, "gpu duration"@, none);
    parts_are_found_anywhere(none, "gpu time"@, none);
    assert("gpu duration"@ + none =~= "gpu duration"@);
    assert("gpu time"@ + none =~= "gpu time"@);
    if low == "gpu duration"@ + rest {
        assert(low.skip(12) =~= rest);
        assert(low[4] == 'd');
        assert(!starts_with(low, "gpu time"@)) by {
            if starts_with(low, "gpu time"@) {
                assert(low.subrange(0, 8)[4] == 't');
            }
        }
        if rest.len() == 0 {
            assert(low =~= "gpu duration"@);
        }
    }
    if low == "gpu time"@ + rest {
        assert(low.skip(8) =~= rest);
        assert(low[4] == 't');
        assert(!starts_with(low, "gpu duration"@)) by {
            if starts_with(low, "gpu duration"@) {
                assert(low.subrange(0, 12)[4] == 'd');
            }
        }
        if rest.len() == 0 {
            assert(low =~= "gpu time"@);
        }
    }
}

/// The column of GPU durations is the first that is labelled so.
pub proof fn durations_stand_in_the_first_such_column(headers: Seq<Seq<char>>)
    ensures
        0 <= duration_column_at(headers) <= headers.len(),
        forall|i: int|
            0 <= i < duration_column_at(headers) ==> !is_duration_column(#[trigger] headers[i]),
        duration_column_at(headers) < headers.len() ==> is_duration_column(
            headers[duration_column_at(headers)],
        ),
    decreases headers.len(),
{
    if headers.len() > 0 && !is_duration_column(headers[0]) {
        let rest = headers.subrange(1, headers.len() as int);
        durations_stand_in_the_first_such_column(rest);
        assert forall|i: int| 0 <= i < duration_column_at(headers) implies !is_duration_column(
            #[trigger] headers[i],
        ) by {
            if i > 0 {
                assert(rest[i - 1] == headers[i]);
            }
        }
    }
}

/// An event list has a queue, a name and a global identifier, in columns of any order and of names
/// in any case; a table that lacks one of them is none.
pub proof fn event_lists_have_their_columns(headers: Seq<Seq<char>>)
    ensures
        missing_event_column(headers) is None <==> {
            &&& exists|i: int|
                0 <= i < headers.len() && lower_ascii(trimmed(#[trigger] headers[i]))
                    == "queue id"@
            &&& exists|i: int|
                0 <= i < headers.len() && lower_ascii(trimmed(#[trigger] headers[i])) == "name"@
            &&& exists|i: int|
                0 <= i < headers.len() && lower_ascii(trimmed(#[trigger] headers[i]))
                    == "global id"@
        },
{
    lemma_known(headers, "queue id"@);
    lemma_known(headers, "name"@);
    lemma_known(headers, "global id"@);
}

proof fn lemma_known(headers: Seq<Seq<char>>, name: Seq<char>)
    ensures
        all_normalized(headers).contains(name) <==> exists|i: int|
            0 <= i < headers.len() && lower_ascii(trimmed(#[trigger] headers[i])) == name,
{
    let known = all_normalized(headers);
    if known.contains(name) {
        let i = choose|i: int| 0 <= i < known.len() && known[i] == name;
        assert(lower_ascii(trimmed(headers[i])) == name);
    }
    if exists|i: int| 0 <= i < headers.len() && lower_ascii(trimmed(#[trigger] headers[i])) == name {
        let i = choose|i: int|
            0 <= i < headers.len() && lower_ascii(trimmed(#[trigger] headers[i])) == name;
        assert(known[i] == name);
    }
}

// ---------------------------------------------------------------------------
// Rows
// ---------------------------------------------------------------------------

/// A table whose columns all have names and whose rows are all valid, of which there are not too
/// many, holds every row as it is, in its order.
pub proof fn tables_hold_every_row(
    headers: Seq<Seq<char>>,
    rows: Seq<Seq<Seq<char>>>,
    max_rows: nat,
)
    requires
        headers.len() > 0,
        forall|i: int| 0 <= i < headers.len() ==> !is_blank(#[trigger] headers[i]),
        rows.len() <= max_rows,
    ensures
        table_of(
            Some(headers),
            rows.map_values(|row: Seq<Seq<char>>| Some(row)),
            max_rows,
        ) == Ok::<Table, Seq<char>>(Table { headers, records: rows }),
{
    let all = rows.map_values(|row: Seq<Seq<char>>| Some(row));
    lemma_valid_prefix_is(all, rows);
}

/// A table is refused for the first row that is not valid, by its number; for too many rows; for a
/// column without a name; and for a header that is not valid or has no column.
pub proof fn faulty_tables_are_refused(
    headers: Seq<Seq<char>>,
    rows: Seq<Option<Seq<Seq<char>>>>,
    max_rows: nat,
    at: int,
)
    ensures
        table_of(None, rows, max_rows) is Err,
        headers.len() == 0 ==> table_of(Some(headers), rows, max_rows) is Err,
        0 <= at < headers.len() && is_blank(headers[at]) ==> table_of(
            Some(headers),
            rows,
            max_rows,
        ) is Err,
        rows.len() > max_rows ==> table_of(Some(headers), rows, max_rows) is Err,
        headers.len() > 0 && (forall|i: int|
            0 <= i < headers.len() ==> !is_blank(#[trigger] headers[i])) && 0 <= at < rows.len()
            && at < max_rows && rows[at] is None && (forall|i: int|
            0 <= i < at ==> (#[trigger] rows[i]) is Some) ==> table_of(Some(headers), rows, max_rows)
            == Err::<Table, Seq<char>>(
            "Invalid CSV record at data row "@ + decimal((at + 1) as nat),
        ),
{
    lemma_valid_prefix(rows);
    let n = valid_prefix(rows).len();
    if 0 <= at < rows.len() && rows[at] is None && (forall|i: int|
        0 <= i < at ==> (#[trigger] rows[i]) is Some) {
        if n < at {
            assert(rows[n as int] is Some);
        }
        if n > at {
            assert(rows[at] == Some(valid_prefix(rows)[at]));
        }
    }
    if 0 <= at < headers.len() && is_blank(headers[at]) {
        assert(has_blank(headers));
    }
}

/// The mark that a file may begin with is no part of the table.
pub proof fn marks_are_no_part_of_the_table(bytes: Seq<u8>)
    ensures
        without_mark(seq![0xEFu8, 0xBB, 0xBF] + bytes) == bytes,
        !(bytes.len() >= 3 && bytes.take(3) == seq![0xEFu8, 0xBB, 0xBF]) ==> without_mark(bytes)
            == bytes,
{
    let marked = seq![0xEFu8, 0xBB, 0xBF] + bytes;
    assert(marked.subrange(3, marked.len() as int) =~= bytes);
    if bytes.len() >= 3 && bytes[0] == 0xEF && bytes[1] == 0xBB && bytes[2] == 0xBF {
        assert(bytes.take(3) =~= seq![0xEFu8, 0xBB, 0xBF]);
    }
}

/// A field without a comma, a quotation mark or a line break is written as it is. Any other is put
/// between quotation marks, of which those in it are doubled.
pub proof fn fields_are_quoted_where_they_must_be(a: Seq<char>, b: Seq<char>, c: char)
    ensures
        doubled(a + b) == doubled(a) + doubled(b),
        doubled(seq!['"']) == seq!['"', '"'],
        c != '"' ==> doubled(seq![c]) == seq![c],
        !a.contains(',') && !a.contains('"') && !a.contains('\r') && !a.contains('\n')
            ==> written_field(a) == a,
        a.contains(',') || a.contains('"') || a.contains('\r') || a.contains('\n')
            ==> written_field(a) == seq!['"'] + doubled(a) + seq!['"'],
    decreases b.len(),
{
    assert(doubled(Seq::<char>::empty()) == Seq::<char>::empty());
    assert(seq!['"'].drop_last() =~= Seq::<char>::empty());
    assert(doubled(seq!['"']) =~= seq!['"', '"']);
    if c != '"' {
        assert(seq![c].drop_last() =~= Seq::<char>::empty());
        assert(doubled(seq![c]) =~= seq![c]);
    }
    if b.len() == 0 {
        assert(a + b =~= a);
        assert(doubled(a) + doubled(b) =~= doubled(a));
    } else {
        fields_are_quoted_where_they_must_be(a, b.drop_last(), c);
        assert((a + b).drop_last() =~= a + b.drop_last());
        assert((a + b).last() == b.last());
        assert(doubled(a + b) =~= doubled(a) + doubled(b));
    }
}

/// A record is its fields with commas between them; where that is nothing, a pair of quotation
/// marks.
pub proof fn records_are_fields_with_commas(fields: Seq<Seq<char>>)
    ensures
        ({
            let line = joined(
                fields.map_values(|field: Seq<char>| written_field(field)),
                seq![','],
            );
            &&& line.len() > 0 ==> written_record(fields) == line
            &&& line.len() == 0 ==> written_record(fields) == seq!['"', '"']
        }),
{
}

/// The bytes of fields add up.
pub proof fn field_lengths_add_up(a: Seq<Seq<char>>, b: Seq<Seq<char>>, field: Seq<char>)
    ensures
        fields_len(a + b) == fields_len(a) + fields_len(b),
        fields_len(seq![field]) == utf8_len(field),
    decreases b.len(),
{
    assert(fields_len(Seq::<Seq<char>>::empty()) == 0);
    assert(seq![field].drop_last() =~= Seq::<Seq<char>>::empty());
    if b.len() == 0 {
        assert(a + b =~= a);
    } else {
        field_lengths_add_up(a, b.drop_last(), field);
        assert((a + b).drop_last() =~= a + b.drop_last());
    }
}

// ---------------------------------------------------------------------------
// Columns that only one of two tables has
// ---------------------------------------------------------------------------

proof fn lemma_shown_as(headers: Seq<Seq<char>>, key: Seq<char>)
    requires
        all_normalized(headers).contains(key),
    ensures
        exists|i: int|
            0 <= i < headers.len() && shown_as(headers, key) == trimmed(#[trigger] headers[i])
                && normalized(headers[i]) == key,
    decreases headers.len(),
{
    let known = all_normalized(headers);
    let k = choose|k: int| 0 <= k < known.len() && known[k] == key;
    if normalized(headers.last()) == key {
        assert(shown_as(headers, key) == trimmed(headers[headers.len() - 1]));
    } else {
        let head = headers.drop_last();
        assert(all_normalized(head)[k] == key);
        lemma_shown_as(head, key);
        let i = choose|i: int|
            0 <= i < head.len() && shown_as(head, key) == trimmed(#[trigger] head[i]) && normalized(
                head[i],
            ) == key;
        assert(shown_as(headers, key) == trimmed(headers[i]));
    }
}

proof fn lemma_columns_only_in(
    keys: Seq<Seq<char>>,
    headers: Seq<Seq<char>>,
    other: Seq<Seq<char>>,
)
    ensures
        columns_only_in(keys, headers, other) == keys.filter(
            |key: Seq<char>| !all_normalized(other).contains(key),
        ).map_values(|key: Seq<char>| shown_as(headers, key)),
    decreases keys.len(),
{
    reveal(Seq::filter);
    let absent = |key: Seq<char>| !all_normalized(other).contains(key);
    let show = |key: Seq<char>| shown_as(headers, key);
    if keys.len() > 0 {
        let head = keys.drop_last();
        lemma_columns_only_in(head, headers, other);
        if absent(keys.last()) {
            assert(keys.filter(absent).map_values(show) =~= head.filter(absent).map_values(
                show,
            ).push(show(keys.last())));
        }
    } else {
        assert(keys.filter(absent).map_values(show) =~= columns_only_in(keys, headers, other));
    }
}

/// The columns that one table has and another lacks are those whose name, up to case and the white
/// space around it, the other does not have: each of them is shown as it is called, and none is
/// left out.
pub proof fn missing_columns_are_those_the_other_lacks(
    headers: Seq<Seq<char>>,
    other: Seq<Seq<char>>,
    shown: Seq<char>,
    i: int,
)
    ensures
        columns_missing_from(headers, other).contains(shown) ==> exists|k: int|
            0 <= k < headers.len() && trimmed(#[trigger] headers[k]) == shown && forall|m: int|
                0 <= m < other.len() ==> lower_ascii(trimmed(#[trigger] other[m]))
                    != lower_ascii(trimmed(headers[k])),
        0 <= i < headers.len() && (forall|m: int|
            0 <= m < other.len() ==> lower_ascii(trimmed(#[trigger] other[m])) != lower_ascii(
                trimmed(headers[i]),
            )) ==> exists|k: int|
            0 <= k < headers.len() && lower_ascii(trimmed(#[trigger] headers[k])) == lower_ascii(
                trimmed(headers[i]),
            ) && columns_missing_from(headers, other).contains(trimmed(headers[k])),
        columns_missing_from(headers, headers).len() == 0,
        columns_missing_from(headers, other).len() <= headers.len(),
{
    let known = all_normalized(headers);
    let keys = distinct_sorted(known);
    let absent = |key: Seq<char>| !all_normalized(other).contains(key);
    let show = |key: Seq<char>| shown_as(headers, key);
    let found = columns_missing_from(headers, other);
    distinct_sorted_has_the_same_texts(known);
    lemma_columns_only_in(keys, headers, other);
    keys.lemma_filter_len(absent);
    lemma_distinct_is_short(known);
    if found.contains(shown) {
        let k = choose|k: int| 0 <= k < found.len() && found[k] == shown;
        let key = keys.filter(absent)[k];
        keys.lemma_filter_pred(absent, k);
        assert(keys.filter(absent).contains(key));
        keys.lemma_filter_contains_rev(absent, key);
        assert(keys.contains(key));
        assert(known.contains(key));
        lemma_shown_as(headers, key);
        let j = choose|j: int|
            0 <= j < headers.len() && shown_as(headers, key) == trimmed(#[trigger] headers[j])
                && normalized(headers[j]) == key;
        assert(trimmed(headers[j]) == shown);
        assert forall|m: int| 0 <= m < other.len() implies lower_ascii(trimmed(#[trigger] other[m]))
            != lower_ascii(trimmed(headers[j])) by {
            assert(all_normalized(other)[m] == lower_ascii(trimmed(other[m])));
        }
    }
    if 0 <= i < headers.len() && (forall|m: int|
        0 <= m < other.len() ==> lower_ascii(trimmed(#[trigger] other[m])) != lower_ascii(
            trimmed(headers[i]),
        )) {
        let key = normalized(headers[i]);
        assert(known[i] == key);
        assert(known.contains(key));
        assert(keys.contains(key));
        lemma_known(other, key);
        let at = choose|at: int| 0 <= at < keys.len() && keys[at] == key;
        keys.lemma_filter_contains(absent, at);
        assert(keys.filter(absent).contains(key));
        let k = choose|k: int| 0 <= k < keys.filter(absent).len() && keys.filter(absent)[k] == key;
        assert(found[k] == shown_as(headers, key));
        lemma_shown_as(headers, key);
        let j = choose|j: int|
            0 <= j < headers.len() && shown_as(headers, key) == trimmed(#[trigger] headers[j])
                && normalized(headers[j]) == key;
        assert(found.contains(trimmed(headers[j])));
    }
    let own = |key: Seq<char>| !all_normalized(headers).contains(key);
    lemma_columns_only_in(keys, headers, headers);
    if keys.filter(own).len() > 0 {
        let key = keys.filter(own)[0];
        keys.lemma_filter_pred(own, 0);
        assert(keys.filter(own).contains(key));
        keys.lemma_filter_contains_rev(own, key);
        assert(known.contains(key));
    }
}

proof fn lemma_distinct_is_short(items: Seq<Seq<char>>)
    ensures
        distinct_sorted(items).len() <= items.len(),
    decreases items.len(),
{
    if items.len() > 0 {
        lemma_distinct_is_short(items.drop_last());
        lemma_put_is_short(distinct_sorted(items.drop_last()), items.last());
    }
}

proof fn lemma_put_is_short(s: Seq<Seq<char>>, x: Seq<char>)
    ensures
        crate::order::put(s, x).len() <= s.len() + 1,
    decreases s.len(),
{
    if s.len() > 0 {
        lemma_put_is_short(s.drop_last(), x);
    }
}

// ---------------------------------------------------------------------------
// Cells
// ---------------------------------------------------------------------------

/// White space around a cell is no part of it.
pub proof fn cells_are_read_without_the_space_around(
    before: Seq<char>,
    text: Seq<char>,
    after: Seq<char>,
)
    requires
        forall|i: int| 0 <= i < before.len() ==> is_white_space(#[trigger] before[i]),
        forall|i: int| 0 <= i < after.len() ==> is_white_space(#[trigger] after[i]),
    ensures
        cell_of(before + text + after) == cell_of(text),
{
    trimmed_texts_begin_and_end_with_something(text);
    let core = trimmed(text);
    let (left, right) = choose|left: Seq<char>, right: Seq<char>|
        text == #[trigger] (left + core + right) && is_blank(left) && is_blank(right);
    let l = before + left;
    let r = right + after;
    assert forall|i: int| 0 <= i < l.len() implies is_white_space(#[trigger] l[i]) by {
        if i < before.len() {
            assert(l[i] == before[i]);
        } else {
            assert(l[i] == left[i - before.len()]);
        }
    }
    assert forall|i: int| 0 <= i < r.len() implies is_white_space(#[trigger] r[i]) by {
        if i < right.len() {
            assert(r[i] == right[i]);
        } else {
            assert(r[i] == after[i - right.len()]);
        }
    }
    trimming_takes_white_space_off(l, core, r);
    assert(before + text + after =~= l + core + r);
}

/// A cell that spells no number is its text; one that spells a number that is no integer of 64
/// bits is that number.
pub proof fn other_cells_are_texts_or_numbers(field: Seq<char>)
    ensures
        signed(trimmed(field)) is None && unsigned(trimmed(field), 10, u64::MAX as nat) is None
            ==> match finite_number(trimmed(field)) {
            None => cell_of(field) == Cell::Text(trimmed(field)),
            Some((bits, json)) => cell_of(field) == Cell::Number(bits, json),
        },
        cell_of(field) is Text ==> cell_of(field) == Cell::Text(trimmed(field)) && finite_number(
            trimmed(field),
        ) is None,
{
}

/// A negative whole number in a cell is kept exactly, down to the smallest of 64 bits.
pub proof fn negative_numbers_are_kept_exactly(n: nat)
    requires
        0 < n <= 0x8000_0000_0000_0000,
    ensures
        cell_of(seq!['-'] + decimal(n)) == Cell::Signed(-(n as int)),
{
    let digits = decimal(n);
    let s = seq!['-'] + digits;
    decimal_reads_back(n, n);
    assert(digits.contains(digits[0]));
    assert(s.subrange(1, s.len() as int) =~= digits);
    assert(crate::numbers::all_digits(digits, 10));
    assert(number(digits, 10) == n) by {
        assert(digits[0] != '+');
    }
    let none = Seq::<char>::empty();
    assert(crate::numbers::digit_value(digits[digits.len() - 1], 10) is Some);
    assert(s[s.len() - 1] == digits[digits.len() - 1]);
    trimming_takes_white_space_off(none, s, none);
    assert(none + s + none =~= s);
}

/// The rows of a counter file that are returned are its rows with something in them, in their
/// order, each with a cell for every column that it has a field for; and the count says how many.
pub proof fn counter_rows_are_returned_in_order(
    report: ExportCountersReport,
    contents: Table,
    i: int,
    c: int,
)
    requires
        report.returns_table(contents),
        contents.records.len() <= usize::MAX,
    ensures
        ({
            let rows = contents.records.filter(|row: Seq<Seq<char>>| holds_something(row));
            let returned = row_cells(report.data->Rows_0@);
            &&& returned.len() == rows.len()
            &&& report.row_count == Some(rows.len() as usize)
            &&& 0 <= i < rows.len() && 0 <= c < rows[i].len() && c < contents.headers.len() ==> c
                < returned[i].len() && returned[i][c] == cell_of(rows[i][c])
            &&& 0 <= i < rows.len() ==> returned[i].len() <= rows[i].len() && returned[i].len()
                <= contents.headers.len()
            &&& texts(report.columns->0@) == contents.headers.map_values(
                |header: Seq<char>| trimmed(header),
            )
            &&& report.success
            &&& report.format@ == "csv"@
        }),
{
    rows_that_hold_something_are_kept(contents.records);
    assert(all_trimmed(contents.headers) =~= contents.headers.map_values(
        |header: Seq<char>| trimmed(header),
    ));
    let rows = live_rows(contents.records);
    assert(data_cells(contents).len() == rows.len());
    if 0 <= i < rows.len() {
        assert(data_cells(contents)[i] == cells_of(contents.headers, rows[i]));
    }
}

/// A counter file with two columns of one name, up to case and the white space around it, is
/// refused; one without is refused only for its size.
pub proof fn repeated_columns_are_refused(contents: Table, i: int, j: int)
    ensures
        0 <= i < j < contents.headers.len() && unicode_lower(trimmed(contents.headers[i]))
            == unicode_lower(trimmed(contents.headers[j])) ==> counter_table_problem(contents)
            is Some,
        (forall|a: int, b: int|
            0 <= a < b < contents.headers.len() ==> unicode_lower(
                trimmed(#[trigger] contents.headers[a]),
            ) != unicode_lower(trimmed(#[trigger] contents.headers[b])))
            ==> counter_table_problem(contents) == size_problem(
            utf8_len(
                crate::counters::data_json(
                    all_trimmed(contents.headers),
                    data_cells(contents),
                ),
            ),
        ),
{
    let columns = all_trimmed(contents.headers);
    let keys = all_lower(columns);
    let n = keys.len() as int;
    lemma_first_repetition(keys, n);
    if 0 <= i < j < n && unicode_lower(trimmed(contents.headers[i])) == unicode_lower(
        trimmed(contents.headers[j]),
    ) {
        assert(keys[i] == keys[j]);
        assert(has_repetition(keys, n));
    }
    if has_repetition(keys, n) {
        let (a, b) = choose|a: int, b: int| 0 <= a < b < n && #[trigger] keys[a] == #[trigger] keys[b];
        assert(unicode_lower(trimmed(contents.headers[a])) == unicode_lower(
            trimmed(contents.headers[b]),
        ));
    }
}

proof fn lemma_first_repetition(items: Seq<Seq<char>>, n: int)
    requires
        n <= items.len(),
    ensures
        has_repetition(items, n) ==> 0 <= first_repetition(items, n) < n,
        !has_repetition(items, n) ==> first_repetition(items, n) == items.len(),
    decreases n,
{
    if n > 0 {
        lemma_first_repetition(items, n - 1);
        if !has_repetition(items, n) && has_repetition(items, n - 1) {
            let (a, b) = choose|a: int, b: int|
                0 <= a < b < n - 1 && #[trigger] items[a] == #[trigger] items[b];
            assert(has_repetition(items, n));
        }
    }
}

/// A format that is named, in any case, is the format, whatever the file is called; where `auto` is
/// named, or nothing, the extension decides, in any case.
pub proof fn named_formats_win_over_extensions(
    format: Option<Seq<char>>,
    extension: Option<Seq<char>>,
    named: Seq<char>,
)
    ensures
        format == Some(named) && lower_ascii(trimmed(named)) == "csv"@ ==> counter_format_of(
            format,
            extension,
        ) == Ok::<CounterFormat, Seq<char>>(CounterFormat::Csv),
        format == Some(named) && lower_ascii(trimmed(named)) == "json"@ ==> counter_format_of(
            format,
            extension,
        ) == Ok::<CounterFormat, Seq<char>>(CounterFormat::Json),
        (format is None || (format == Some(named) && lower_ascii(trimmed(named)) == "auto"@))
            && extension is Some && lower_ascii(extension->0) == "csv"@ ==> counter_format_of(
            format,
            extension,
        ) == Ok::<CounterFormat, Seq<char>>(CounterFormat::Csv),
        (format is None || (format == Some(named) && lower_ascii(trimmed(named)) == "auto"@))
            && extension is Some && lower_ascii(extension->0) == "json"@ ==> counter_format_of(
            format,
            extension,
        ) == Ok::<CounterFormat, Seq<char>>(CounterFormat::Json),
        counter_format_of(format, extension) is Ok ==> format is None || lower_ascii(
            trimmed(format->0),
        ) == "csv"@ || lower_ascii(trimmed(format->0)) == "json"@ || lower_ascii(trimmed(format->0))
            == "auto"@,
        (format is None || lower_ascii(trimmed(format->0)) == "auto"@) && counter_format_of(
            format,
            extension,
        ) is Ok ==> extension is Some && (lower_ascii(extension->0) == "csv"@ || lower_ascii(
            extension->0,
        ) == "json"@),
{
    reveal_strlit("auto");
    reveal_strlit("csv");
    reveal_strlit("json");
    let none = Seq::<char>::empty();
    trimming_takes_white_space_off(none, "auto"@, none);
    assert(none + "auto"@ + none =~= "auto"@);
    assert(lower_ascii("auto"@) =~= "auto"@);
    assert("csv"@.len() != "json"@.len());
    assert("auto"@[0] != "json"@[0]);
}

// ---------------------------------------------------------------------------
// Exported events
// ---------------------------------------------------------------------------

/// The kind of an event is what stands in its queue and name fields, without the white space around
/// it; no other field is part of it.
pub proof fn kinds_are_queues_and_names(
    headers: Seq<Seq<char>>,
    row: Seq<Seq<char>>,
    other: Seq<Seq<char>>,
    q: int,
    n: int,
)
    requires
        0 <= q < headers.len(),
        0 <= n < headers.len(),
        lower_ascii(trimmed(headers[q])) == "queue id"@,
        lower_ascii(trimmed(headers[n])) == "name"@,
        forall|i: int| 0 <= i < q ==> lower_ascii(trimmed(#[trigger] headers[i])) != "queue id"@,
        forall|i: int| 0 <= i < n ==> lower_ascii(trimmed(#[trigger] headers[i])) != "name"@,
        row.len() == headers.len(),
        other.len() == headers.len(),
    ensures
        kind_in(headers, row).queue_id == trimmed(row[q]),
        kind_in(headers, row).name == trimmed(row[n]),
        kind_in(headers, row) == kind_in(headers, other) <==> trimmed(row[q]) == trimmed(other[q])
            && trimmed(row[n]) == trimmed(other[n]),
{
    columns_are_found_by_their_names(headers, "Queue ID"@);
    columns_are_found_by_their_names(headers, "Name"@);
    reveal_strlit("Queue ID");
    reveal_strlit("queue id");
    reveal_strlit("Name");
    reveal_strlit("name");
    assert(lower_ascii("Queue ID"@) =~= "queue id"@);
    assert(lower_ascii("Name"@) =~= "name"@);
}

/// The duration of an event is the finite number in the first column that is labelled so.
pub proof fn durations_are_read_from_their_column(
    headers: Seq<Seq<char>>,
    row: Seq<Seq<char>>,
    at: int,
)
    requires
        0 <= at < headers.len(),
        is_duration_column(headers[at]),
        forall|i: int| 0 <= i < at ==> !is_duration_column(#[trigger] headers[i]),
        row.len() == headers.len(),
    ensures
        match finite_number(trimmed(row[at])) {
            Some(number) => duration_in(headers, row) == Some(number.0),
            None => duration_in(headers, row) is None,
        },
{
    durations_stand_in_the_first_such_column(headers);
    let found = duration_column_at(headers);
    if found < at {
        assert(is_duration_column(headers[found]));
    }
    if at < found {
        assert(!is_duration_column(headers[at]));
    }
}

/// A row that is too short for the column of durations has none, and so has every row where there is
/// no such column.
pub proof fn short_rows_have_no_duration(headers: Seq<Seq<char>>, row: Seq<Seq<char>>)
    ensures
        row.len() <= duration_column_at(headers) ==> duration_in(headers, row) is None,
        (forall|i: int| 0 <= i < headers.len() ==> !is_duration_column(#[trigger] headers[i]))
            ==> duration_in(headers, row) is None,
{
    durations_stand_in_the_first_such_column(headers);
}

/// An exported list is refused for the first row that has a problem, and for no other.
pub proof fn the_first_faulty_row_is_told(
    headers: Seq<Seq<char>>,
    rows: Seq<Option<Seq<Seq<char>>>>,
    index: nat,
    max_events: nat,
    at: int,
)
    requires
        index <= at <= rows.len(),
        forall|i: int|
            index <= i < at ==> row_problem(headers, #[trigger] rows[i], i as nat, max_events)
                is None,
        at < rows.len() ==> row_problem(headers, rows[at], at as nat, max_events) is Some,
    ensures
        first_problem(headers, rows, index, max_events) == if at < rows.len() {
            row_problem(headers, rows[at], at as nat, max_events)
        } else {
            None
        },
    decreases at - index,
{
    if index < at {
        assert(row_problem(headers, rows[index as int], index, max_events) is None);
        the_first_faulty_row_is_told(headers, rows, index + 1, max_events, at);
    }
}

/// A row has a problem where it is not valid, where it is behind the last row that is read, or where
/// its queue or its name is too long and its event is to be kept.
pub proof fn rows_are_faulty_for_what_they_are(
    headers: Seq<Seq<char>>,
    row: Option<Seq<Seq<char>>>,
    index: nat,
    max_events: nat,
)
    ensures
        index >= 250_000 ==> row_problem(headers, row, index, max_events) is Some,
        row is None ==> row_problem(headers, row, index, max_events) is Some,
        index < 250_000 && row is None ==> row_problem(headers, row, index, max_events) == Some(
            "Invalid event-list CSV record at row "@ + decimal(index + 1),
        ),
        index < 250_000 && row is Some ==> (row_problem(headers, row, index, max_events) is Some
            <==> index < max_events && (utf8_len(kind_in(headers, row->0).queue_id) > 4096
            || utf8_len(kind_in(headers, row->0).name) > 4096)),
{
}

/// A column is shown as the last header that has its name, and the columns that another table lacks
/// come in the order of their names in lower case.
pub proof fn missing_columns_are_shown_in_order(
    headers: Seq<Seq<char>>,
    other: Seq<Seq<char>>,
    last: int,
    i: int,
    j: int,
)
    ensures
        0 <= last < headers.len() && (forall|k: int|
            last < k < headers.len() ==> normalized(#[trigger] headers[k]) != normalized(
                headers[last],
            )) ==> shown_as(headers, normalized(headers[last])) == trimmed(headers[last]),
        0 <= i < j < columns_missing_from(headers, other).len() ==> crate::order::text_less(
            normalized(columns_missing_from(headers, other)[i]),
            normalized(columns_missing_from(headers, other)[j]),
        ),
{
    if 0 <= last < headers.len() && (forall|k: int|
        last < k < headers.len() ==> normalized(#[trigger] headers[k]) != normalized(
            headers[last],
        )) {
        lemma_shown_as_last(headers, last);
    }
    let found = columns_missing_from(headers, other);
    if 0 <= i < j < found.len() {
        let known = all_normalized(headers);
        let keys = distinct_sorted(known);
        let absent = |key: Seq<char>| !all_normalized(other).contains(key);
        distinct_sorted_has_the_same_texts(known);
        lemma_columns_only_in(keys, headers, other);
        let picked = keys.filter(absent);
        lemma_filter_ascends(keys, absent);
        assert(crate::order::text_less(picked[i], picked[j]));
        lemma_picked_key(headers, keys, absent, i);
        lemma_picked_key(headers, keys, absent, j);
        assert(found[i] == shown_as(headers, picked[i]));
        assert(found[j] == shown_as(headers, picked[j]));
    }
}

proof fn lemma_picked_key(
    headers: Seq<Seq<char>>,
    keys: Seq<Seq<char>>,
    absent: spec_fn(Seq<char>) -> bool,
    i: int,
)
    requires
        keys == distinct_sorted(all_normalized(headers)),
        0 <= i < keys.filter(absent).len(),
    ensures
        normalized(shown_as(headers, keys.filter(absent)[i])) == keys.filter(absent)[i],
{
    let key = keys.filter(absent)[i];
    distinct_sorted_has_the_same_texts(all_normalized(headers));
    assert(keys.filter(absent).contains(key));
    keys.lemma_filter_contains_rev(absent, key);
    assert(all_normalized(headers).contains(key));
    lemma_shown_as(headers, key);
    let k = choose|k: int|
        0 <= k < headers.len() && shown_as(headers, key) == trimmed(#[trigger] headers[k])
            && normalized(headers[k]) == key;
    let none = Seq::<char>::empty();
    trimmed_texts_begin_and_end_with_something(headers[k]);
    trimming_takes_white_space_off(none, trimmed(headers[k]), none);
    assert(none + trimmed(headers[k]) + none =~= trimmed(headers[k]));
}

proof fn lemma_filter_ascends(keys: Seq<Seq<char>>, pick: spec_fn(Seq<char>) -> bool)
    requires
        crate::order::ascending(keys),
    ensures
        crate::order::ascending(keys.filter(pick)),
        forall|k: int|
            0 <= k < keys.filter(pick).len() ==> keys.contains(#[trigger] keys.filter(pick)[k]),
    decreases keys.len(),
{
    reveal(Seq::filter);
    if keys.len() > 0 {
        let head = keys.drop_last();
        assert forall|i: int, j: int| 0 <= i < j < head.len() implies crate::order::text_less(
            #[trigger] head[i],
            #[trigger] head[j],
        ) by {
            assert(crate::order::text_less(keys[i], keys[j]));
        }
        lemma_filter_ascends(head, pick);
        let before = head.filter(pick);
        let all = keys.filter(pick);
        assert forall|k: int| 0 <= k < all.len() implies keys.contains(#[trigger] all[k]) by {
            if k < before.len() {
                assert(head.contains(before[k]));
                let m = choose|m: int| 0 <= m < head.len() && head[m] == before[k];
                assert(keys[m] == all[k]);
            } else {
                assert(keys[keys.len() - 1] == all[k]);
            }
        }
        assert forall|i: int, j: int| 0 <= i < j < all.len() implies crate::order::text_less(
            #[trigger] all[i],
            #[trigger] all[j],
        ) by {
            if j < before.len() {
                assert(crate::order::text_less(before[i], before[j]));
            } else {
                assert(head.contains(before[i]));
                let m = choose|m: int| 0 <= m < head.len() && head[m] == before[i];
                assert(crate::order::text_less(keys[m], keys[keys.len() - 1]));
            }
        }
    }
}

proof fn lemma_shown_as_last(headers: Seq<Seq<char>>, last: int)
    requires
        0 <= last < headers.len(),
        forall|k: int|
            last < k < headers.len() ==> normalized(#[trigger] headers[k]) != normalized(
                headers[last],
            ),
    ensures
        shown_as(headers, normalized(headers[last])) == trimmed(headers[last]),
    decreases headers.len(),
{
    if last < headers.len() - 1 {
        let head = headers.drop_last();
        assert(normalized(headers[headers.len() - 1]) != normalized(headers[last]));
        assert forall|k: int| last < k < head.len() implies normalized(#[trigger] head[k])
            != normalized(head[last]) by {
            assert(head[k] == headers[k]);
        }
        lemma_shown_as_last(head, last);
    }
}

} // verus!
