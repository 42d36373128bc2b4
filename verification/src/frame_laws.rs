//! What holds of the summary of a frame: which rows count, as what, and which events are the most
//! expensive.

use crate::columns::column_at;
use crate::finite::{finite_number, order_key};
use crate::frame::{
    count_named, count_target_changes, descends, event_name, event_time, frame_columns,
    frame_columns_are_cut, frame_notes, gpu_time_like_at, is_blank_row, label, live_rows,
    looks_like_gpu_time, looks_like_name, name_column, name_like_at, ranked, ranked_in,
    ranking_descends, row_summary, separator, summary_from, summary_of, time_column, top_of, Timed,
};
use crate::table_laws::columns_are_found_by_their_names;
use crate::tables::Table;
use crate::text::{has_part, is_blank, joined, lower_ascii, trimmed, utf8_len};
use crate::text_laws::{found_parts_are_there, parts_are_found_anywhere};
use crate::utf8::{utf8_len_of_ascii, utf8_len_of_concatenation};
use vstd::prelude::*;
use vstd::string::*;

verus! {

// ---------------------------------------------------------------------------
// Rows
// ---------------------------------------------------------------------------

/// Whether some cell of a row holds more than white space.
pub open spec fn holds_something(row: Seq<Seq<char>>) -> bool {
    exists|i: int| 0 <= i < row.len() && !is_blank(#[trigger] row[i])
}

/// The rows that count are those with a cell that holds more than white space, in their order.
pub proof fn rows_that_hold_something_are_kept(records: Seq<Seq<Seq<char>>>)
    ensures
        live_rows(records) == records.filter(|row: Seq<Seq<char>>| holds_something(row)),
    decreases records.len(),
{
    reveal(Seq::filter);
    if records.len() > 0 {
        rows_that_hold_something_are_kept(records.drop_last());
        let row = records.last();
        if !is_blank_row(row) {
            let i = choose|i: int| 0 <= i < row.len() && !is_blank(#[trigger] row[i]);
            assert(holds_something(row));
        }
    }
}

/// A row is left out only where every cell of it is white space; a single cell with something in
/// it keeps the row, whatever the others hold.
pub proof fn one_cell_keeps_a_row(
    records: Seq<Seq<Seq<char>>>,
    before: Seq<Seq<char>>,
    cell: Seq<char>,
    after: Seq<Seq<char>>,
)
    requires
        !is_blank(cell),
    ensures
        !is_blank_row(before + seq![cell] + after),
        live_rows(records.push(before + seq![cell] + after)) == live_rows(records).push(
            before + seq![cell] + after,
        ),
{
    let row = before + seq![cell] + after;
    assert(row[before.len() as int] == cell);
    assert(records.push(row).drop_last() =~= records);
}

// ---------------------------------------------------------------------------
// Counts
// ---------------------------------------------------------------------------

/// Whether `name` has `word` in it, up to the case of ASCII letters.
pub open spec fn mentions(name: Seq<char>, word: Seq<char>) -> bool {
    exists|before: Seq<char>, after: Seq<char>|
        lower_ascii(name) == #[trigger] (before + word + after)
}

proof fn lemma_mentions(name: Seq<char>, word: Seq<char>)
    ensures
        mentions(name, word) == has_part(lower_ascii(name), word),
{
    found_parts_are_there(lower_ascii(name), word);
    if mentions(name, word) {
        let (before, after) = choose|before: Seq<char>, after: Seq<char>|
            lower_ascii(name) == #[trigger] (before + word + after);
        parts_are_found_anywhere(before, word, after);
    }
}

proof fn lemma_count_named(
    headers: Seq<Seq<char>>,
    rows: Seq<Seq<Seq<char>>>,
    word: Seq<char>,
)
    ensures
        count_named(headers, rows, word) == rows.filter(
            |row: Seq<Seq<char>>| mentions(event_name(headers, row).0, word),
        ).len(),
    decreases rows.len(),
{
    reveal(Seq::filter);
    if rows.len() > 0 {
        lemma_count_named(headers, rows.drop_last(), word);
        lemma_mentions(event_name(headers, rows.last()).0, word);
    }
}

proof fn lemma_count_target_changes(headers: Seq<Seq<char>>, rows: Seq<Seq<Seq<char>>>)
    ensures
        count_target_changes(headers, rows) == rows.filter(
            |row: Seq<Seq<char>>| mentions(event_name(headers, row).0, "setrendertarget"@),
        ).len(),
    decreases rows.len(),
{
    reveal(Seq::filter);
    if rows.len() > 0 {
        lemma_count_target_changes(headers, rows.drop_last());
        let name = event_name(headers, rows.last()).0;
        lemma_mentions(name, "setrendertarget"@);
        if has_part(lower_ascii(name), "omsetrendertargets"@) {
            reveal_strlit("omsetrendertargets");
            reveal_strlit("setrendertarget");
            let word = "setrendertarget"@;
            assert("omsetrendertargets"@ =~= seq!['o', 'm'] + word + seq!['s']);
            parts_are_found_anywhere(seq!['o', 'm'], word, seq!['s']);
            crate::text_laws::parts_of_parts_are_parts(
                lower_ascii(name),
                "omsetrendertargets"@,
                word,
            );
        }
    }
}

/// The events of a frame are the rows with something in them. Of these, the draws, dispatches,
/// barriers, copies and changes of render targets are those with the word in their name, up to
/// case, however many there are.
pub proof fn events_are_counted_by_their_names(capture_path: Seq<char>, contents: Table)
    ensures
        ({
            let summary = summary_of(capture_path, contents);
            let events = contents.records.filter(|row: Seq<Seq<char>>| holds_something(row));
            let named = |word: Seq<char>|
                events.filter(
                    |row: Seq<Seq<char>>| mentions(event_name(contents.headers, row).0, word),
                ).len();
            &&& summary.total_events == events.len()
            &&& summary.draw_calls == named("draw"@)
            &&& summary.dispatches == named("dispatch"@)
            &&& summary.resource_barriers == named("barrier"@)
            &&& summary.copies == named("copy"@)
            &&& summary.render_target_changes == named("setrendertarget"@)
        }),
{
    rows_that_hold_something_are_kept(contents.records);
    let rows = live_rows(contents.records);
    lemma_count_named(contents.headers, rows, "draw"@);
    lemma_count_named(contents.headers, rows, "dispatch"@);
    lemma_count_named(contents.headers, rows, "barrier"@);
    lemma_count_named(contents.headers, rows, "copy"@);
    lemma_count_target_changes(contents.headers, rows);
}

/// One more row with something in it is one more event, and one more of each kind whose word is in
/// its name; a row with nothing in it changes no count. This holds however many rows there are.
pub proof fn one_more_row_counts_once(
    capture_path: Seq<char>,
    headers: Seq<Seq<char>>,
    records: Seq<Seq<Seq<char>>>,
    row: Seq<Seq<char>>,
)
    ensures
        ({
            let before = summary_of(capture_path, Table { headers, records });
            let after = summary_of(capture_path, Table { headers, records: records.push(row) });
            let name = event_name(headers, row).0;
            let one = |word: Seq<char>|
                if holds_something(row) && mentions(name, word) {
                    1int
                } else {
                    0int
                };
            &&& after.total_events == before.total_events + (if holds_something(row) {
                1int
            } else {
                0int
            })
            &&& after.draw_calls == before.draw_calls + one("draw"@)
            &&& after.dispatches == before.dispatches + one("dispatch"@)
            &&& after.resource_barriers == before.resource_barriers + one("barrier"@)
            &&& after.copies == before.copies + one("copy"@)
            &&& after.render_target_changes == before.render_target_changes + one(
                "setrendertarget"@,
            )
        }),
{
    events_are_counted_by_their_names(capture_path, Table { headers, records });
    events_are_counted_by_their_names(capture_path, Table { headers, records: records.push(row) });
    let held = |row: Seq<Seq<char>>| holds_something(row);
    let events = records.filter(held);
    records.lemma_filter_push(row, held);
    lemma_one_more(headers, events, row, "draw"@);
    lemma_one_more(headers, events, row, "dispatch"@);
    lemma_one_more(headers, events, row, "barrier"@);
    lemma_one_more(headers, events, row, "copy"@);
    lemma_one_more(headers, events, row, "setrendertarget"@);
}

proof fn lemma_one_more(
    headers: Seq<Seq<char>>,
    events: Seq<Seq<Seq<char>>>,
    row: Seq<Seq<char>>,
    word: Seq<char>,
)
    ensures
        ({
            let named = |row: Seq<Seq<char>>| mentions(event_name(headers, row).0, word);
            events.push(row).filter(named).len() == events.filter(named).len() + (if mentions(
                event_name(headers, row).0,
                word,
            ) {
                1int
            } else {
                0int
            })
        }),
{
    let named = |row: Seq<Seq<char>>| mentions(event_name(headers, row).0, word);
    events.lemma_filter_push(row, named);
}

// ---------------------------------------------------------------------------
// Names and times
// ---------------------------------------------------------------------------

/// The first column that looks like one of names, or like one of GPU times.
proof fn lemma_first_likes(headers: Seq<Seq<char>>)
    ensures
        0 <= name_like_at(headers) <= headers.len(),
        forall|i: int| 0 <= i < name_like_at(headers) ==> !looks_like_name(#[trigger] headers[i]),
        name_like_at(headers) < headers.len() ==> looks_like_name(headers[name_like_at(headers)]),
        0 <= gpu_time_like_at(headers) <= headers.len(),
        forall|i: int|
            0 <= i < gpu_time_like_at(headers) ==> !looks_like_gpu_time(#[trigger] headers[i]),
        gpu_time_like_at(headers) < headers.len() ==> looks_like_gpu_time(
            headers[gpu_time_like_at(headers)],
        ),
    decreases headers.len(),
{
    if headers.len() > 0 {
        let rest = headers.subrange(1, headers.len() as int);
        lemma_first_likes(rest);
        assert forall|i: int| 0 <= i < name_like_at(headers) implies !looks_like_name(
            #[trigger] headers[i],
        ) by {
            if i > 0 {
                assert(rest[i - 1] == headers[i]);
            }
        }
        assert forall|i: int| 0 <= i < gpu_time_like_at(headers) implies !looks_like_gpu_time(
            #[trigger] headers[i],
        ) by {
            if i > 0 {
                assert(rest[i - 1] == headers[i]);
            }
        }
    }
}

/// Whether a label is `name`, up to case and the white space around it.
pub open spec fn is_called(header: Seq<char>, name: Seq<char>) -> bool {
    lower_ascii(trimmed(header)) == name
}

/// The column of event names is the first that is called `event name`; where there is none, the
/// first that is called `name`; and else the first with `name` and without `id` in its label.
pub proof fn names_stand_in_the_first_column_of_names(headers: Seq<Seq<char>>, at: int)
    ensures
        ({
            let exact = exists|i: int|
                0 <= i < headers.len() && is_called(#[trigger] headers[i], "event name"@);
            let plain = exists|i: int|
                0 <= i < headers.len() && is_called(#[trigger] headers[i], "name"@);
            let like = |header: Seq<char>|
                has_part(label(header), "name"@) && !has_part(label(header), "id"@);
            &&& exact ==> (name_column(headers) == Some(at) <==> 0 <= at < headers.len()
                && is_called(headers[at], "event name"@) && forall|i: int|
                0 <= i < at ==> !is_called(#[trigger] headers[i], "event name"@))
            &&& !exact && plain ==> (name_column(headers) == Some(at) <==> 0 <= at < headers.len()
                && is_called(headers[at], "name"@) && forall|i: int|
                0 <= i < at ==> !is_called(#[trigger] headers[i], "name"@))
            &&& !exact && !plain ==> (name_column(headers) == Some(at) <==> 0 <= at
                < headers.len() && like(headers[at]) && forall|i: int|
                0 <= i < at ==> !like(#[trigger] headers[i]))
        }),
{
    lemma_called(headers, "event name"@);
    lemma_called(headers, "name"@);
    lemma_first_likes(headers);
}

/// The column of GPU times is the first that is called `gpu duration`; where there is none, the
/// first that is called `gpu time`; and else the first with `gpu`, and `time` or `duration`, in its
/// label.
pub proof fn times_stand_in_the_first_column_of_times(headers: Seq<Seq<char>>, at: int)
    ensures
        ({
            let exact = exists|i: int|
                0 <= i < headers.len() && is_called(#[trigger] headers[i], "gpu duration"@);
            let plain = exists|i: int|
                0 <= i < headers.len() && is_called(#[trigger] headers[i], "gpu time"@);
            let like = |header: Seq<char>|
                has_part(label(header), "gpu"@) && (has_part(label(header), "time"@) || has_part(
                    label(header),
                    "duration"@,
                ));
            &&& exact ==> (time_column(headers) == Some(at) <==> 0 <= at < headers.len()
                && is_called(headers[at], "gpu duration"@) && forall|i: int|
                0 <= i < at ==> !is_called(#[trigger] headers[i], "gpu duration"@))
            &&& !exact && plain ==> (time_column(headers) == Some(at) <==> 0 <= at < headers.len()
                && is_called(headers[at], "gpu time"@) && forall|i: int|
                0 <= i < at ==> !is_called(#[trigger] headers[i], "gpu time"@))
            &&& !exact && !plain ==> (time_column(headers) == Some(at) <==> 0 <= at
                < headers.len() && like(headers[at]) && forall|i: int|
                0 <= i < at ==> !like(#[trigger] headers[i]))
        }),
{
    lemma_called(headers, "gpu duration"@);
    lemma_called(headers, "gpu time"@);
    lemma_first_likes(headers);
}

proof fn lemma_called(headers: Seq<Seq<char>>, name: Seq<char>)
    requires
        name == "event name"@ || name == "name"@ || name == "gpu duration"@ || name
            == "gpu time"@,
    ensures
        0 <= column_at(headers, name) <= headers.len(),
        forall|i: int| 0 <= i < column_at(headers, name) ==> !is_called(#[trigger] headers[i], name),
        column_at(headers, name) < headers.len() ==> is_called(
            headers[column_at(headers, name)],
            name,
        ),
{
    columns_are_found_by_their_names(headers, name);
    reveal_strlit("event name");
    reveal_strlit("name");
    reveal_strlit("gpu duration");
    reveal_strlit("gpu time");
    assert(lower_ascii(name) =~= name);
}

/// The name of an event is what stands in its name field, without the white space around it; a
/// name that is too long is cut. Its GPU time is the finite number in its time field, if any.
pub proof fn fields_give_names_and_times(headers: Seq<Seq<char>>, row: Seq<Seq<char>>)
    ensures
        name_column(headers) matches Some(at) ==> (at < row.len() && utf8_len(trimmed(row[at]))
            <= 65_536 ==> event_name(headers, row) == (trimmed(row[at]), false)),
        match time_column(headers) {
            Some(at) => event_time(headers, row) == if at < row.len() {
                finite_number(trimmed(row[at]))
            } else {
                None
            },
            None => event_time(headers, row) is None,
        },
{
}

/// Where there is no name field, the fields of a row stand for the name, with bars between them,
/// as long as they fit.
pub proof fn whole_rows_stand_for_names(headers: Seq<Seq<char>>, row: Seq<Seq<char>>)
    requires
        name_column(headers) is None,
        utf8_len(joined(row, " | "@)) <= 65_536,
        forall|i: int|
            0 < i <= row.len() ==> utf8_len(#[trigger] joined(row.take(i), " | "@)) + 3 < 65_536,
    ensures
        event_name(headers, row) == (joined(row, " | "@), false),
{
    assert(row.take(0) =~= Seq::<Seq<char>>::empty());
    lemma_summary(row, 0);
    assert(joined(row.take(0), " | "@) =~= Seq::<char>::empty());
}

proof fn lemma_summary(row: Seq<Seq<char>>, index: nat)
    requires
        index <= row.len(),
        utf8_len(joined(row, " | "@)) <= 65_536,
        forall|i: int|
            0 < i <= row.len() ==> utf8_len(#[trigger] joined(row.take(i), " | "@)) + 3 < 65_536,
    ensures
        summary_from(joined(row.take(index as int), " | "@), row, index) == (
            joined(row, " | "@),
            false,
        ),
    decreases row.len() - index,
{
    let bar = " | "@;
    let output = joined(row.take(index as int), bar);
    reveal_strlit(" | ");
    reveal_strlit("");
    if index < row.len() {
        let longer = row.take(index as int + 1);
        assert(longer.drop_last() =~= row.take(index as int));
        assert(longer.last() == row[index as int]);
        let next = joined(longer, bar);
        let with_separator = output + separator(index);
        assert(next =~= with_separator + row[index as int]) by {
            if index == 0 {
                assert(output =~= Seq::<char>::empty());
            }
        }
        utf8_len_of_concatenation(with_separator, row[index as int]);
        utf8_len_of_concatenation(output, separator(index));
        utf8_len_of_ascii(bar);
        utf8_len_of_ascii(""@);
        if index == 0 {
            utf8_len_of_ascii(output);
        }
        assert(utf8_len(joined(row.take(index as int + 1), bar)) + 3 < 65_536);
        lemma_summary(row, index + 1);
    } else {
        assert(row.take(index as int) =~= row);
    }
}

// ---------------------------------------------------------------------------
// Ranking
// ---------------------------------------------------------------------------

/// The event of a row, where it has a GPU time.
pub open spec fn timed_event(headers: Seq<Seq<char>>, row: Seq<Seq<char>>) -> Option<Timed> {
    match event_time(headers, row) {
        Some((gpu_time, json)) => Some(Timed { event: event_name(headers, row).0, gpu_time, json }),
        None => None,
    }
}

/// The events of rows that have a GPU time, in the order of the rows.
pub open spec fn timed_rows(headers: Seq<Seq<char>>, rows: Seq<Seq<Seq<char>>>) -> Seq<Timed> {
    rows.filter(|row: Seq<Seq<char>>| timed_event(headers, row) is Some).map_values(
        |row: Seq<Seq<char>>| timed_event(headers, row)->0,
    )
}

/// Whether an event takes exactly so long.
pub open spec fn takes(key: int) -> spec_fn(Timed) -> bool {
    |event: Timed| order_key(event.gpu_time) == key
}

proof fn lemma_ranked_in_keeps(s: Seq<Timed>, x: Timed, key: int)
    requires
        descends(s),
    ensures
        ranked_in(s, x).filter(takes(key)) == s.push(x).filter(takes(key)),
        ranked_in(s, x).len() == s.len() + 1,
    decreases s.len(),
{
    if s.len() > 0 && order_key(s.last().gpu_time) < order_key(x.gpu_time) {
        let head = s.drop_last();
        assert(descends(head));
        lemma_ranked_in_keeps(head, x, key);
        let part = ranked_in(head, x);
        part.lemma_filter_push(s.last(), takes(key));
        head.lemma_filter_push(x, takes(key));
        head.lemma_filter_push(s.last(), takes(key));
        assert(s =~= head.push(s.last()));
        s.lemma_filter_push(x, takes(key));
        lemma_filter_of_descending(head, s.last(), x, key);
    }
}

/// Of two events that do not take equally long, at most one takes exactly so long.
proof fn lemma_filter_of_descending(head: Seq<Timed>, last: Timed, x: Timed, key: int)
    requires
        order_key(last.gpu_time) < order_key(x.gpu_time),
    ensures
        !(takes(key)(last) && takes(key)(x)),
{
}

/// The ranking has every event with a GPU time in it. The most expensive comes first, and events
/// that take equally long stand in the order of their rows. The first ten are returned.
pub proof fn the_most_expensive_events_come_first(
    headers: Seq<Seq<char>>,
    rows: Seq<Seq<Seq<char>>>,
    key: int,
)
    ensures
        ranked(headers, rows).len() == timed_rows(headers, rows).len(),
        ranked(headers, rows).filter(takes(key)) == timed_rows(headers, rows).filter(takes(key)),
        forall|i: int, j: int|
            0 <= i < j < ranked(headers, rows).len() ==> order_key(
                (#[trigger] ranked(headers, rows)[i]).gpu_time,
            ) >= order_key((#[trigger] ranked(headers, rows)[j]).gpu_time),
        top_of(ranked(headers, rows)).len() == if timed_rows(headers, rows).len() < 10 {
            timed_rows(headers, rows).len()
        } else {
            10
        },
        forall|i: int|
            0 <= i < top_of(ranked(headers, rows)).len() ==> #[trigger] top_of(
                ranked(headers, rows),
            )[i] == ranked(headers, rows)[i],
    decreases rows.len(),
{
    reveal(Seq::filter);
    ranking_descends(headers, rows);
    if rows.len() > 0 {
        let head = rows.drop_last();
        the_most_expensive_events_come_first(headers, head, key);
        ranking_descends(headers, head);
        let before = ranked(headers, head);
        if event_time(headers, rows.last()) is Some {
            let x = timed_event(headers, rows.last())->0;
            lemma_ranked_in_keeps(before, x, key);
            assert(timed_rows(headers, rows) =~= timed_rows(headers, head).push(x));
            before.lemma_filter_push(x, takes(key));
            timed_rows(headers, head).lemma_filter_push(x, takes(key));
        } else {
            assert(timed_rows(headers, rows) =~= timed_rows(headers, head));
        }
    } else {
        assert(timed_rows(headers, rows) =~= Seq::<Timed>::empty());
    }
}

/// The returned events are the first of the ranking, and the summary says which columns there
/// are, trimmed, where they fit.
pub proof fn summaries_show_the_ranking_and_the_columns(capture_path: Seq<char>, contents: Table)
    ensures
        ({
            let summary = summary_of(capture_path, contents);
            &&& summary.top_events == top_of(
                ranked(
                    contents.headers,
                    contents.records.filter(|row: Seq<Seq<char>>| holds_something(row)),
                ),
            )
            &&& !frame_columns_are_cut(contents.headers) ==> summary.event_columns
                == contents.headers.map_values(|header: Seq<char>| trimmed(header))
            &&& summary.success
            &&& summary.capture_path == capture_path
        }),
{
    rows_that_hold_something_are_kept(contents.records);
    let names = crate::frame::all_trimmed(contents.headers);
    crate::budget::fitting_items_keep_within_the_limit(
        crate::budget::element_sizes(crate::budget::all_cut(names, 65_536)),
        2,
        196_608,
    );
    let n = crate::budget::kept_count(names, 65_536, 196_608) as int;
    let shown = frame_columns(contents.headers);
    assert(shown.len() == n);
    if !frame_columns_are_cut(contents.headers) {
        assert forall|i: int| 0 <= i < n implies #[trigger] shown[i] == names[i] by {
            assert(!crate::utf8::is_cut(names[i], 65_536));
        }
        assert(shown =~= names);
        assert(names =~= contents.headers.map_values(|header: Seq<char>| trimmed(header)));
    }
}

// ---------------------------------------------------------------------------
// Notes
// ---------------------------------------------------------------------------

/// What is noted about a frame: that there is no column of names, or of times, and that labels or
/// names were cut, each exactly where it is so, behind the note that is always there.
pub proof fn notes_say_what_lacks(contents: Table)
    ensures
        ({
            let one = |b: bool|
                if b {
                    1int
                } else {
                    0int
                };
            let rows = contents.records.filter(|row: Seq<Seq<char>>| holds_something(row));
            let notes = frame_notes(contents);
            let no_name = name_column(contents.headers) is None;
            let no_time = time_column(contents.headers) is None;
            &&& notes.len() == 1 + one(no_name) + one(no_time) + one(
                frame_columns_are_cut(contents.headers),
            ) + one(
                exists|i: int|
                    0 <= i < rows.len() && event_name(contents.headers, #[trigger] rows[i]).1,
            )
            &&& no_name ==> notes[1]
                == "No event-name column detected; counts were matched against full rows and may be approximate."@
            &&& no_time ==> notes[1 + one(no_name)]
                == "No GPU-timing column was present in the exported event list, so expensive events could not be ranked."@
        }),
{
    rows_that_hold_something_are_kept(contents.records);
}

/// A row that is too short for the column of names goes by the whole of it.
pub proof fn short_rows_go_by_the_whole(headers: Seq<Seq<char>>, row: Seq<Seq<char>>)
    ensures
        name_column(headers) matches Some(at) ==> (row.len() <= at ==> event_name(headers, row)
            == row_summary(row)),
        name_column(headers) is None ==> event_name(headers, row) == row_summary(row),
        name_column(headers) matches Some(at) ==> (at < row.len() ==> event_name(headers, row).1
            == (utf8_len(trimmed(row[at])) > 65_536)),
{
}

} // verus!
