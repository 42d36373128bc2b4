//! What holds of event lists: their pages, their previews, and the check of a saved one.

use crate::budget::{element_sizes, fitting_items_keep_within_the_limit, total_of};
use crate::events::{
    inspected_header_problem, inspected_row_problem, page_count, page_of, page_overhead,
    preview_count, preview_sizes, previewed, window, written_rows, EventsPreview,
};
use crate::json::quoted_len;
use crate::numbers::decimal;
use crate::tables::{fields_len, written_record, Table};
use crate::text::{is_blank, lower_ascii, texts, trimmed};
use vstd::prelude::*;
use vstd::string::*;

verus! {

/// A page begins at the row that was asked for, or behind the last, and has as many rows as were
/// asked for, or as are left, unless the budget ends it. Each is the row of its number, written out;
/// where the budget ends a page, the next row would go beyond it.
pub proof fn pages_have_the_rows_asked_for(
    contents: Table,
    requested: nat,
    row_limit: nat,
    i: int,
)
    ensures
        page_of(contents, requested, row_limit) matches Ok(page) ==> {
            let total = contents.records.len();
            let left = total - page.offset;
            &&& page.header == written_record(contents.headers)
            &&& page.total_events == total
            &&& requested <= total ==> page.offset == requested
            &&& requested > total ==> page.offset == total
            &&& !page.byte_limited ==> page.rows.len() == if row_limit < left {
                row_limit as int
            } else {
                left
            }
            &&& page.byte_limited ==> page.rows.len() < row_limit && page.rows.len() < left
            &&& 0 <= i < page.rows.len() ==> page.rows[i] == written_record(
                contents.records[page.offset + i],
            )
        },
{
    if let Ok(page) = page_of(contents, requested, row_limit) {
        let rows = window(contents, page.offset, row_limit);
        let sizes = element_sizes(rows);
        fitting_items_keep_within_the_limit(sizes, page_overhead(contents), 1_048_576);
        let n = page_count(contents, page.offset, row_limit);
        let all = written_rows(contents.records);
        assert(page.rows.len() == n);
        if 0 <= i < n {
            assert(page.rows[i] == rows[i]);
            assert(rows[i] == all[page.offset + i]);
        }
    }
}

/// A page is refused only where its header, or its first row with the header, is beyond the budget.
pub proof fn pages_are_refused_for_their_size(contents: Table, requested: nat, row_limit: nat)
    requires
        page_of(contents, requested, row_limit) is Err,
    ensures
        1024 + quoted_len(written_record(contents.headers)) > 1_048_576 || (requested
            < contents.records.len() && row_limit > 0 && 1024 + quoted_len(
            written_record(contents.headers),
        ) + quoted_len(written_record(contents.records[requested as int])) + 1 > 1_048_576),
{
    let total = contents.records.len();
    let offset = if requested < total {
        requested
    } else {
        total
    };
    let rows = window(contents, offset, row_limit);
    let sizes = element_sizes(rows);
    if page_overhead(contents) <= 1_048_576 {
        fitting_items_keep_within_the_limit(sizes, page_overhead(contents), 1_048_576);
        assert(rows.len() > 0);
        assert(rows[0] == written_rows(contents.records)[offset as int]);
        assert(sizes[0] == quoted_len(rows[0]) + 1);
        assert(total_of(sizes, 1) == sizes[0]) by {
            assert(total_of(sizes, 0) == 0);
        }
    }
}

/// Every row is written out by itself.
pub proof fn rows_are_written_one_by_one(
    a: Seq<Seq<Seq<char>>>,
    b: Seq<Seq<Seq<char>>>,
    row: Seq<Seq<char>>,
)
    ensures
        written_rows(a + b) == written_rows(a) + written_rows(b),
        written_rows(seq![row]) == seq![written_record(row)],
{
    assert(written_rows(a + b) =~= written_rows(a) + written_rows(b));
    assert(written_rows(seq![row]) =~= seq![written_record(row)]);
}

/// A preview shows the first rows, in their order, twenty at most; it shows fewer only where there
/// are fewer, or where the next would go beyond the budget, and says whether rows are left out.
pub proof fn previews_show_the_first_rows(preview: EventsPreview, contents: Table, i: int)
    requires
        preview.shows(contents),
    ensures
        preview.preview.len() <= 20,
        preview.preview.len() <= contents.records.len(),
        preview.total_events == contents.records.len(),
        preview.preview_truncated <==> preview.preview.len() != contents.records.len(),
        preview.header@ == written_record(contents.headers),
        0 <= i < preview.preview.len() ==> texts(preview.preview@[i].fields@)
            == contents.records[i] && preview.preview@[i].raw@ == written_record(
            contents.records[i],
        ),
        quoted_len(written_record(contents.headers)) + 256 <= 524_288 && preview.preview.len() < 20
            && preview.preview.len() < contents.records.len() ==> quoted_len(
            written_record(contents.headers),
        ) + 256 + total_of(preview_sizes(contents.records), (preview.preview.len() + 1) as nat)
            > 524_288,
{
    let n = preview_count(contents);
    let sizes = preview_sizes(contents.records);
    lemma_fitting_bound(
        sizes,
        quoted_len(written_record(contents.headers)) + 256,
        524_288,
    );
    assert(sizes.len() == previewed(contents.records).len());
    if quoted_len(written_record(contents.headers)) + 256 <= 524_288 {
        fitting_items_keep_within_the_limit(
            sizes,
            quoted_len(written_record(contents.headers)) + 256,
            524_288,
        );
    }
}

proof fn lemma_fitting_bound(sizes: Seq<nat>, used: nat, limit: nat)
    ensures
        crate::budget::fitting_count(sizes, used, limit) <= sizes.len(),
    decreases sizes.len(),
{
    if sizes.len() > 0 && used + sizes[0] <= limit {
        lemma_fitting_bound(sizes.subrange(1, sizes.len() as int), used + sizes[0], limit);
    }
}

/// A saved event list is refused for its first row that is not valid, by its number, and for having
/// no row; otherwise nothing is wrong with its rows.
pub proof fn the_first_invalid_row_is_told(
    rows: Seq<Option<Seq<Seq<char>>>>,
    done: nat,
    at: int,
    path: Seq<char>,
)
    requires
        done <= at <= rows.len(),
        forall|i: int| done <= i < at ==> (#[trigger] rows[i]) is Some,
        at < rows.len() ==> rows[at] is None,
    ensures
        at < rows.len() ==> inspected_row_problem(rows, done, path) == Some(
            "Invalid CSV record at data row "@ + decimal((at + 1) as nat),
        ),
        at == rows.len() && rows.len() > 0 ==> inspected_row_problem(rows, done, path) is None,
        rows.len() == 0 ==> inspected_row_problem(rows, done, path) is Some,
    decreases at - done,
{
    if done < at {
        assert(rows[done as int] is Some);
        the_first_invalid_row_is_told(rows, done + 1, at, path);
    }
}

/// The header of a saved event list is accepted where every column has a name and the three that an
/// event list must have are among them, in any case and order.
pub proof fn headers_of_saved_lists_are_checked(header: Option<Seq<Seq<char>>>)
    ensures
        inspected_header_problem(header) is None <==> {
            &&& header is Some
            &&& header->0.len() > 0
            &&& forall|i: int| 0 <= i < header->0.len() ==> !is_blank(#[trigger] header->0[i])
            &&& exists|i: int|
                0 <= i < header->0.len() && lower_ascii(trimmed(#[trigger] header->0[i]))
                    == "queue id"@
            &&& exists|i: int|
                0 <= i < header->0.len() && lower_ascii(trimmed(#[trigger] header->0[i]))
                    == "name"@
            &&& exists|i: int|
                0 <= i < header->0.len() && lower_ascii(trimmed(#[trigger] header->0[i]))
                    == "global id"@
        },
{
    if let Some(names) = header {
        crate::table_laws::event_lists_have_their_columns(names);
    }
}

/// Fields are added up by their bytes, so that a row whose fields are beyond the bound of a preview
/// is never shown in one.
pub proof fn oversized_rows_are_not_previewed(contents: Table, at: int)
    requires
        0 <= at < contents.records.len(),
        at < 20,
        fields_len(contents.records[at]) > 131_072,
    ensures
        preview_count(contents) <= at,
{
    let sizes = preview_sizes(contents.records);
    assert(sizes[at] > 524_288);
    lemma_stops_at(sizes, quoted_len(written_record(contents.headers)) + 256, 524_288, at);
}

proof fn lemma_stops_at(sizes: Seq<nat>, used: nat, limit: nat, at: int)
    requires
        0 <= at < sizes.len(),
        sizes[at] > limit,
    ensures
        crate::budget::fitting_count(sizes, used, limit) <= at,
    decreases sizes.len(),
{
    if at > 0 && used + sizes[0] <= limit {
        let rest = sizes.subrange(1, sizes.len() as int);
        assert(rest[at - 1] == sizes[at]);
        lemma_stops_at(rest, used + sizes[0], limit, at - 1);
    }
}

} // verus!
