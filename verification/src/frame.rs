//! A heuristic summary of a captured frame.

use crate::budget::{keep_within, kept, some_kept_is_cut};
use crate::columns::{column_at, find_column};
use crate::finite::{finite_number, is_above, order_key, read_finite, Double};
use crate::tables::{ParsedCsv, Table};
use crate::text::{
    blank, byte_len, chars_have_part, chars_of, has_part, is_blank, lemma_texts_push, lower_ascii,
    texts, to_lower_ascii, trim, trimmed, utf8_len,
};
use crate::utf8::{
    cut, cut_keeps_within_its_bound, is_cut, truncate_utf8, utf8_len_of_ascii,
    utf8_len_of_concatenation,
};
use vstd::prelude::*;
use vstd::string::*;

verus! {

pub const MAX_FRAME_TEXT_FIELD_BYTES: usize = 65_536;

pub const MAX_FRAME_COLUMNS_JSON_BYTES: usize = 196_608;

/// How many of the most expensive events are returned.
pub const TOP_EVENTS: usize = 10;

/// A request for a summary of a frame.
#[derive(Debug)]
pub struct AnalyzeFrameArgs {
    pub capture_path: String,
    /// Whether GPU timing is collected, so that events can be ranked.
    pub include_counters: Option<bool>,
}

/// An event with its GPU time.
#[derive(Debug)]
pub struct TimedEvent {
    pub event: String,
    pub gpu_time: Double,
}

/// The contents of a timed event: its name, and its GPU time by its bits and as JSON.
pub struct Timed {
    pub event: Seq<char>,
    pub gpu_time: u64,
    pub json: Seq<char>,
}

impl View for TimedEvent {
    type V = Timed;

    open spec fn view(&self) -> Timed {
        Timed { event: self.event@, gpu_time: self.gpu_time.bits, json: self.gpu_time.json@ }
    }
}

pub open spec fn timed_views(events: Seq<TimedEvent>) -> Seq<Timed> {
    events.map_values(|event: TimedEvent| event@)
}

/// What a request for a summary of a frame is answered.
#[derive(Debug)]
pub struct FrameInsights {
    pub success: bool,
    pub capture_path: String,
    pub total_events: usize,
    pub draw_calls: usize,
    pub dispatches: usize,
    pub resource_barriers: usize,
    pub render_target_changes: usize,
    pub copies: usize,
    pub event_columns: Vec<String>,
    /// The most expensive events by GPU time, where a timing column was found.
    pub top_events: Vec<TimedEvent>,
    /// Observations and caveats.
    pub notes: Vec<String>,
}

// ---------------------------------------------------------------------------
// Columns
// ---------------------------------------------------------------------------

/// Every text without the white space around it.
pub open spec fn all_trimmed(items: Seq<Seq<char>>) -> Seq<Seq<char>> {
    items.map_values(|item: Seq<char>| trimmed(item))
}

pub(crate) fn trim_all(items: &Vec<String>) -> (r: Vec<String>)
    ensures
        texts(r@) == all_trimmed(texts(items@)),
{
    broadcast use lemma_texts_push;

    let ghost model = all_trimmed(texts(items@));
    let mut r: Vec<String> = Vec::new();
    let mut i: usize = 0;
    assert(texts(r@) =~= model.take(0));
    while i < items.len()
        invariant
            i <= items.len(),
            model == all_trimmed(texts(items@)),
            texts(r@) == model.take(i as int),
        decreases items.len() - i,
    {
        r.push(trim(&items[i]));
        assert(model[i as int] == trimmed(items@[i as int]@));
        assert(model.take(i + 1) =~= model.take(i as int).push(model[i as int]));
        i += 1;
    }
    assert(model.take(i as int) =~= model);
    r
}

/// The column labels that are returned.
pub open spec fn frame_columns(headers: Seq<Seq<char>>) -> Seq<Seq<char>> {
    kept(
        all_trimmed(headers),
        MAX_FRAME_TEXT_FIELD_BYTES as nat,
        MAX_FRAME_COLUMNS_JSON_BYTES as nat,
    )
}

/// Whether column labels were left out or cut.
pub open spec fn frame_columns_are_cut(headers: Seq<Seq<char>>) -> bool {
    frame_columns(headers).len() < headers.len() || some_kept_is_cut(
        all_trimmed(headers),
        MAX_FRAME_TEXT_FIELD_BYTES as nat,
        MAX_FRAME_COLUMNS_JSON_BYTES as nat,
    )
}

/// The column labels that fit the inline budget, and whether that left anything out.
pub fn bounded_frame_columns(headers: &Vec<String>) -> (r: (Vec<String>, bool))
    ensures
        texts(r.0@) == frame_columns(texts(headers@)),
        r.1 == frame_columns_are_cut(texts(headers@)),
{
    let names = trim_all(headers);
    assert(texts(names@).len() == names.len());
    let (columns, any_cut) = keep_within(
        &names,
        MAX_FRAME_TEXT_FIELD_BYTES,
        MAX_FRAME_COLUMNS_JSON_BYTES,
    );
    assert(texts(columns@).len() == columns.len());
    assert(texts(headers@).len() == headers.len());
    let truncated = any_cut || columns.len() < headers.len();
    (columns, truncated)
}

/// A column label as the heuristics read it.
pub open spec fn label(header: Seq<char>) -> Seq<char> {
    lower_ascii(cut(header, MAX_FRAME_TEXT_FIELD_BYTES as nat))
}

/// Whether a label looks like that of event names.
pub open spec fn looks_like_name(header: Seq<char>) -> bool {
    has_part(label(header), "name"@) && !has_part(label(header), "id"@)
}

/// Whether a label looks like that of GPU times. A time that is not said to be the GPU's does
/// not count.
pub open spec fn looks_like_gpu_time(header: Seq<char>) -> bool {
    has_part(label(header), "gpu"@) && (has_part(label(header), "time"@) || has_part(
        label(header),
        "duration"@,
    ))
}

/// Where the first label stands that looks like one of event names; the number of columns if
/// none does.
pub open spec fn name_like_at(headers: Seq<Seq<char>>) -> int
    decreases headers.len(),
{
    if headers.len() == 0 || looks_like_name(headers[0]) {
        0
    } else {
        1 + name_like_at(headers.subrange(1, headers.len() as int))
    }
}

/// Where the first label stands that looks like one of GPU times; the number of columns if
/// none does.
pub open spec fn gpu_time_like_at(headers: Seq<Seq<char>>) -> int
    decreases headers.len(),
{
    if headers.len() == 0 || looks_like_gpu_time(headers[0]) {
        0
    } else {
        1 + gpu_time_like_at(headers.subrange(1, headers.len() as int))
    }
}

/// The position `at`, unless it is behind the last column.
pub open spec fn found_column(headers: Seq<Seq<char>>, at: int) -> Option<int> {
    if at < headers.len() {
        Some(at)
    } else {
        None
    }
}

/// The first of two positions that was found.
pub open spec fn either(first: Option<int>, second: Option<int>) -> Option<int> {
    match first {
        Some(at) => Some(at),
        None => second,
    }
}

/// The column of event names: one that is named so, or else one whose label looks like it.
pub open spec fn name_column(headers: Seq<Seq<char>>) -> Option<int> {
    either(
        found_column(headers, column_at(headers, "event name"@)),
        either(
            found_column(headers, column_at(headers, "name"@)),
            found_column(headers, name_like_at(headers)),
        ),
    )
}

/// The column of GPU times: one that is named so, or else one whose label looks like it.
pub open spec fn time_column(headers: Seq<Seq<char>>) -> Option<int> {
    either(
        found_column(headers, column_at(headers, "gpu duration"@)),
        either(
            found_column(headers, column_at(headers, "gpu time"@)),
            found_column(headers, gpu_time_like_at(headers)),
        ),
    )
}

fn label_chars(header: &str) -> (r: Vec<char>)
    ensures
        r@ == label(header@),
{
    to_lower_ascii(&chars_of(&truncate_utf8(header, MAX_FRAME_TEXT_FIELD_BYTES).0))
}

fn find_name_like(headers: &Vec<String>) -> (r: Option<usize>)
    ensures
        match r {
            Some(at) => at < headers.len() && at == name_like_at(texts(headers@)),
            None => name_like_at(texts(headers@)) == headers.len(),
        },
{
    let ghost model = texts(headers@);
    let mut i: usize = 0;
    assert(model.skip(0) =~= model);
    while i < headers.len()
        invariant
            i <= headers.len(),
            model == texts(headers@),
            name_like_at(model) == i + name_like_at(model.skip(i as int)),
        decreases headers.len() - i,
    {
        let ghost rest = model.skip(i as int);
        assert(rest[0] == headers@[i as int]@);
        let text = label_chars(&headers[i]);
        if chars_have_part(&text, &chars_of("name")) && !chars_have_part(&text, &chars_of("id")) {
            return Some(i);
        }
        assert(rest.subrange(1, rest.len() as int) =~= model.skip(i + 1));
        i += 1;
    }
    None
}

fn find_gpu_time_like(headers: &Vec<String>) -> (r: Option<usize>)
    ensures
        match r {
            Some(at) => at < headers.len() && at == gpu_time_like_at(texts(headers@)),
            None => gpu_time_like_at(texts(headers@)) == headers.len(),
        },
{
    let ghost model = texts(headers@);
    let mut i: usize = 0;
    assert(model.skip(0) =~= model);
    while i < headers.len()
        invariant
            i <= headers.len(),
            model == texts(headers@),
            gpu_time_like_at(model) == i + gpu_time_like_at(model.skip(i as int)),
        decreases headers.len() - i,
    {
        let ghost rest = model.skip(i as int);
        assert(rest[0] == headers@[i as int]@);
        let text = label_chars(&headers[i]);
        if chars_have_part(&text, &chars_of("gpu")) && (chars_have_part(&text, &chars_of("time"))
            || chars_have_part(&text, &chars_of("duration"))) {
            return Some(i);
        }
        assert(rest.subrange(1, rest.len() as int) =~= model.skip(i + 1));
        i += 1;
    }
    None
}

fn find_name_column(headers: &Vec<String>) -> (r: Option<usize>)
    ensures
        match r {
            Some(at) => at < headers.len() && name_column(texts(headers@)) == Some(at as int),
            None => name_column(texts(headers@)) is None,
        },
{
    if let Some(at) = find_column(headers, "event name") {
        return Some(at);
    }
    if let Some(at) = find_column(headers, "name") {
        return Some(at);
    }
    find_name_like(headers)
}

fn find_time_column(headers: &Vec<String>) -> (r: Option<usize>)
    ensures
        match r {
            Some(at) => at < headers.len() && time_column(texts(headers@)) == Some(at as int),
            None => time_column(texts(headers@)) is None,
        },
{
    if let Some(at) = find_column(headers, "gpu duration") {
        return Some(at);
    }
    if let Some(at) = find_column(headers, "gpu time") {
        return Some(at);
    }
    find_gpu_time_like(headers)
}

// ---------------------------------------------------------------------------
// Events
// ---------------------------------------------------------------------------

/// What stands before the field at `index` of a summary.
pub open spec fn separator(index: nat) -> Seq<char> {
    if index == 0 {
        ""@
    } else {
        " | "@
    }
}

/// `output` with the fields from `index` on behind it, as far as the bound allows. The second
/// result says whether something was left out.
pub open spec fn summary_from(output: Seq<char>, fields: Seq<Seq<char>>, index: nat) -> (
    Seq<char>,
    bool,
)
    decreases fields.len() - index,
{
    let bound = MAX_FRAME_TEXT_FIELD_BYTES as nat;
    let with_separator = output + separator(index);
    if index >= fields.len() {
        (output, false)
    } else if utf8_len(with_separator) >= bound {
        (output, true)
    } else {
        let room = (bound - utf8_len(with_separator)) as nat;
        let field = fields[index as int];
        if is_cut(field, room) {
            (with_separator + cut(field, room), true)
        } else {
            summary_from(with_separator + field, fields, index + 1)
        }
    }
}

/// A whole row as one text.
pub open spec fn row_summary(fields: Seq<Seq<char>>) -> (Seq<char>, bool) {
    summary_from(seq![], fields, 0)
}

proof fn lemma_summary_from_is_bounded(output: Seq<char>, fields: Seq<Seq<char>>, index: nat)
    requires
        utf8_len(output) <= MAX_FRAME_TEXT_FIELD_BYTES,
    ensures
        utf8_len(summary_from(output, fields, index).0) <= MAX_FRAME_TEXT_FIELD_BYTES,
    decreases fields.len() - index,
{
    let bound = MAX_FRAME_TEXT_FIELD_BYTES as nat;
    let with_separator = output + separator(index);
    if index < fields.len() && utf8_len(with_separator) < bound {
        let room = (bound - utf8_len(with_separator)) as nat;
        let field = fields[index as int];
        cut_keeps_within_its_bound(field, room);
        utf8_len_of_concatenation(with_separator, cut(field, room));
        if !is_cut(field, room) {
            lemma_summary_from_is_bounded(with_separator + field, fields, index + 1);
        }
    }
}

/// The text of a whole row keeps within its bound.
pub proof fn row_summary_is_bounded(fields: Seq<Seq<char>>)
    ensures
        utf8_len(row_summary(fields).0) <= MAX_FRAME_TEXT_FIELD_BYTES,
{
    utf8_len_of_ascii(Seq::<char>::empty());
    lemma_summary_from_is_bounded(seq![], fields, 0);
}

/// A whole row as one text, and whether something was left out.
pub fn bounded_record_summary(record: &Vec<String>) -> (r: (String, bool))
    ensures
        r.0@ == row_summary(texts(record@)).0,
        r.1 == row_summary(texts(record@)).1,
{
    let ghost fields = texts(record@);
    let mut output = String::new();
    let mut i: usize = 0;
    while i < record.len()
        invariant
            i <= record.len(),
            fields == texts(record@),
            row_summary(fields) == summary_from(output@, fields, i as nat),
        decreases record.len() - i,
    {
        let mut longer = output.clone();
        longer.append(if i == 0 {
            ""
        } else {
            " | "
        });
        let used: usize = byte_len(&longer);
        if used >= MAX_FRAME_TEXT_FIELD_BYTES {
            return (output, true);
        }
        assert(fields[i as int] == record@[i as int]@);
        let (field, truncated) = truncate_utf8(&record[i], MAX_FRAME_TEXT_FIELD_BYTES - used);
        longer.append(&field);
        output = longer;
        if truncated {
            return (output, true);
        }
        i += 1;
    }
    assert(fields.len() == record.len());
    (output, false)
}

/// The name of the event in a row: its name field, or the whole row where there is none. The
/// second result says whether it was cut.
pub open spec fn event_name(headers: Seq<Seq<char>>, row: Seq<Seq<char>>) -> (Seq<char>, bool) {
    let at = name_column(headers);
    if at is Some && at->0 < row.len() {
        let name = trimmed(row[at->0]);
        (
            cut(name, MAX_FRAME_TEXT_FIELD_BYTES as nat),
            is_cut(name, MAX_FRAME_TEXT_FIELD_BYTES as nat),
        )
    } else {
        row_summary(row)
    }
}

/// The GPU time in a row, by its bits and as JSON, where it has a finite one.
pub open spec fn event_time(headers: Seq<Seq<char>>, row: Seq<Seq<char>>) -> Option<
    (u64, Seq<char>),
> {
    let at = time_column(headers);
    if at is Some && at->0 < row.len() {
        finite_number(trimmed(row[at->0]))
    } else {
        None
    }
}

/// Whether a row holds nothing but white space.
pub open spec fn is_blank_row(row: Seq<Seq<char>>) -> bool {
    forall|i: int| 0 <= i < row.len() ==> is_blank(#[trigger] row[i])
}

pub(crate) fn blank_row(row: &Vec<String>) -> (r: bool)
    ensures
        r == is_blank_row(texts(row@)),
{
    let mut i: usize = 0;
    while i < row.len()
        invariant
            i <= row.len(),
            forall|k: int| 0 <= k < i ==> is_blank(#[trigger] texts(row@)[k]),
        decreases row.len() - i,
    {
        assert(texts(row@)[i as int] == row@[i as int]@);
        if !blank(&row[i]) {
            return false;
        }
        i += 1;
    }
    true
}

/// The rows that hold something.
pub open spec fn live_rows(records: Seq<Seq<Seq<char>>>) -> Seq<Seq<Seq<char>>>
    decreases records.len(),
{
    if records.len() == 0 {
        seq![]
    } else if is_blank_row(records.last()) {
        live_rows(records.drop_last())
    } else {
        live_rows(records.drop_last()).push(records.last())
    }
}

/// How many events have `word` in their name, in any case.
pub open spec fn count_named(
    headers: Seq<Seq<char>>,
    rows: Seq<Seq<Seq<char>>>,
    word: Seq<char>,
) -> nat
    decreases rows.len(),
{
    if rows.len() == 0 {
        0
    } else {
        count_named(headers, rows.drop_last(), word) + (if has_part(
            lower_ascii(event_name(headers, rows.last()).0),
            word,
        ) {
            1nat
        } else {
            0nat
        })
    }
}

/// How many events set render targets.
pub open spec fn count_target_changes(headers: Seq<Seq<char>>, rows: Seq<Seq<Seq<char>>>) -> nat
    decreases rows.len(),
{
    if rows.len() == 0 {
        0
    } else {
        let name = lower_ascii(event_name(headers, rows.last()).0);
        count_target_changes(headers, rows.drop_last()) + (if has_part(name, "setrendertarget"@)
            || has_part(name, "omsetrendertargets"@) {
            1nat
        } else {
            0nat
        })
    }
}

/// Whether the name of some event was cut.
pub open spec fn some_name_is_cut(headers: Seq<Seq<char>>, rows: Seq<Seq<Seq<char>>>) -> bool {
    exists|i: int| 0 <= i < rows.len() && event_name(headers, #[trigger] rows[i]).1
}

// ---------------------------------------------------------------------------
// Ranking
// ---------------------------------------------------------------------------

/// `s` with `x` behind the last event that takes at least as long.
pub open spec fn ranked_in(s: Seq<Timed>, x: Timed) -> Seq<Timed>
    decreases s.len(),
{
    if s.len() == 0 || order_key(s.last().gpu_time) >= order_key(x.gpu_time) {
        s.push(x)
    } else {
        ranked_in(s.drop_last(), x).push(s.last())
    }
}

/// The events of `rows` with a GPU time, the most expensive first; events that take equally
/// long keep their order.
pub open spec fn ranked(headers: Seq<Seq<char>>, rows: Seq<Seq<Seq<char>>>) -> Seq<Timed>
    decreases rows.len(),
{
    if rows.len() == 0 {
        seq![]
    } else {
        let before = ranked(headers, rows.drop_last());
        match event_time(headers, rows.last()) {
            Some((gpu_time, json)) => ranked_in(
                before,
                Timed { event: event_name(headers, rows.last()).0, gpu_time, json },
            ),
            None => before,
        }
    }
}

/// The first [`TOP_EVENTS`] of `s`.
pub open spec fn top_of(s: Seq<Timed>) -> Seq<Timed> {
    if s.len() <= TOP_EVENTS {
        s
    } else {
        s.take(TOP_EVENTS as int)
    }
}

/// Whether no event takes longer than one before it.
pub open spec fn descends(s: Seq<Timed>) -> bool {
    forall|i: int, j: int|
        0 <= i < j < s.len() ==> order_key((#[trigger] s[i]).gpu_time) >= order_key(
            (#[trigger] s[j]).gpu_time,
        )
}

proof fn lemma_ranked_in(s: Seq<Timed>, x: Timed)
    requires
        descends(s),
    ensures
        descends(ranked_in(s, x)),
        ranked_in(s, x).len() == s.len() + 1,
        forall|i: int|
            0 <= i < s.len() + 1 ==> s.contains(#[trigger] ranked_in(s, x)[i]) || ranked_in(
                s,
                x,
            )[i] == x,
    decreases s.len(),
{
    let r = ranked_in(s, x);
    if s.len() == 0 || order_key(s.last().gpu_time) >= order_key(x.gpu_time) {
        assert forall|i: int, j: int| 0 <= i < j < r.len() implies order_key(
            (#[trigger] r[i]).gpu_time,
        ) >= order_key((#[trigger] r[j]).gpu_time) by {
            if j == s.len() && i < s.len() - 1 {
                assert(order_key(s[i].gpu_time) >= order_key(s[s.len() - 1].gpu_time));
            }
        }
        assert forall|i: int| 0 <= i < s.len() + 1 implies s.contains(#[trigger] r[i]) || r[i]
            == x by {
            if i < s.len() {
                assert(r[i] == s[i]);
            }
        }
    } else {
        let head = s.drop_last();
        lemma_ranked_in(head, x);
        let part = ranked_in(head, x);
        assert forall|i: int| 0 <= i < s.len() + 1 implies s.contains(#[trigger] r[i]) || r[i]
            == x by {
            if i < part.len() {
                assert(r[i] == part[i]);
                if part[i] != x {
                    assert(head.contains(part[i]));
                    let k = choose|k: int| 0 <= k < head.len() && head[k] == part[i];
                    assert(s[k] == part[i]);
                }
            } else {
                assert(r[i] == s[s.len() - 1]);
            }
        }
        assert forall|i: int, j: int| 0 <= i < j < r.len() implies order_key(
            (#[trigger] r[i]).gpu_time,
        ) >= order_key((#[trigger] r[j]).gpu_time) by {
            if j == part.len() {
                assert(head.contains(part[i]) || part[i] == x);
                if part[i] != x {
                    let k = choose|k: int| 0 <= k < head.len() && head[k] == part[i];
                    assert(s[k] == part[i]);
                    assert(order_key(s[k].gpu_time) >= order_key(s[s.len() - 1].gpu_time));
                }
            } else {
                assert(r[i] == part[i] && r[j] == part[j]);
            }
        }
    }
}

/// The ranking descends.
pub proof fn ranking_descends(headers: Seq<Seq<char>>, rows: Seq<Seq<Seq<char>>>)
    ensures
        descends(ranked(headers, rows)),
        descends(top_of(ranked(headers, rows))),
    decreases rows.len(),
{
    if rows.len() > 0 {
        ranking_descends(headers, rows.drop_last());
        if let Some((gpu_time, json)) = event_time(headers, rows.last()) {
            lemma_ranked_in(
                ranked(headers, rows.drop_last()),
                Timed { event: event_name(headers, rows.last()).0, gpu_time, json },
            );
        }
    }
}

/// Keeping only the top events on the way does not change which are the top events.
proof fn lemma_top_of_ranked_in(s: Seq<Timed>, x: Timed)
    requires
        descends(s),
    ensures
        top_of(ranked_in(top_of(s), x)) == top_of(ranked_in(s, x)),
    decreases s.len(),
{
    if s.len() > TOP_EVENTS {
        let n = TOP_EVENTS as int;
        let head = s.drop_last();
        let top = s.take(n);
        lemma_ranked_in(s, x);
        lemma_ranked_in(head, x);
        assert(descends(top));
        lemma_ranked_in(top, x);
        assert(top.last() == s[n - 1]);
        if order_key(s.last().gpu_time) >= order_key(x.gpu_time) {
            assert(order_key(s[n - 1].gpu_time) >= order_key(s[s.len() - 1].gpu_time));
            assert(top_of(ranked_in(s, x)) =~= top);
            assert(top_of(ranked_in(top, x)) =~= top);
        } else {
            lemma_top_of_ranked_in(head, x);
            assert(top_of(head) =~= top);
            assert(ranked_in(s, x).take(n) =~= ranked_in(head, x).take(n));
        }
    }
}

/// Puts an event in its place.
fn rank_in(events: &mut Vec<TimedEvent>, x: TimedEvent)
    requires
        descends(timed_views(old(events)@)),
    ensures
        timed_views(final(events)@) == ranked_in(timed_views(old(events)@), x@),
{
    let ghost s = timed_views(events@);
    let mut at: usize = events.len();
    assert(s.take(at as int) =~= s);
    assert(ranked_in(s, x@) =~= ranked_in(s.take(at as int), x@) + s.skip(at as int));
    while at > 0 && is_above(x.gpu_time.bits, events[at - 1].gpu_time.bits)
        invariant
            at <= events.len(),
            s == timed_views(events@),
            ranked_in(s, x@) == ranked_in(s.take(at as int), x@) + s.skip(at as int),
        decreases at,
    {
        let ghost p = s.take(at as int);
        assert(p.last() == events@[at - 1]@);
        assert(p.drop_last() =~= s.take(at - 1));
        assert(ranked_in(p, x@) + s.skip(at as int) =~= ranked_in(s.take(at - 1), x@) + s.skip(
            at - 1,
        ));
        at -= 1;
    }
    assert(at > 0 ==> s.take(at as int).last() == events@[at - 1]@);
    assert(ranked_in(s.take(at as int), x@) == s.take(at as int).push(x@));
    let ghost grown = events@.insert(at as int, x);
    events.insert(at, x);
    assert(timed_views(grown) =~= s.take(at as int).push(x@) + s.skip(at as int));
}

// ---------------------------------------------------------------------------
// The summary
// ---------------------------------------------------------------------------

/// What is noted about a frame.
pub open spec fn frame_notes(contents: Table) -> Seq<Seq<char>> {
    seq![
        "Counts are heuristic, derived from event-name matching in the pixtool event list."@,
    ] + (if name_column(contents.headers) is None {
        seq![
            "No event-name column detected; counts were matched against full rows and may be approximate."@,
        ]
    } else {
        seq![]
    }) + (if time_column(contents.headers) is None {
        seq![
            "No GPU-timing column was present in the exported event list, so expensive events could not be ranked."@,
        ]
    } else {
        seq![]
    }) + (if frame_columns_are_cut(contents.headers) {
        seq![
            "Event column labels were truncated to keep the response within its inline budget."@,
        ]
    } else {
        seq![]
    }) + (if some_name_is_cut(contents.headers, live_rows(contents.records)) {
        seq!["Exceptionally long event names were truncated in the heuristic summary."@]
    } else {
        seq![]
    })
}

/// The contents of the summary of a frame.
pub struct Summary {
    pub success: bool,
    pub capture_path: Seq<char>,
    pub total_events: nat,
    pub draw_calls: nat,
    pub dispatches: nat,
    pub resource_barriers: nat,
    pub render_target_changes: nat,
    pub copies: nat,
    pub event_columns: Seq<Seq<char>>,
    pub top_events: Seq<Timed>,
    pub notes: Seq<Seq<char>>,
}

impl View for FrameInsights {
    type V = Summary;

    open spec fn view(&self) -> Summary {
        Summary {
            success: self.success,
            capture_path: self.capture_path@,
            total_events: self.total_events as nat,
            draw_calls: self.draw_calls as nat,
            dispatches: self.dispatches as nat,
            resource_barriers: self.resource_barriers as nat,
            render_target_changes: self.render_target_changes as nat,
            copies: self.copies as nat,
            event_columns: texts(self.event_columns@),
            top_events: timed_views(self.top_events@),
            notes: texts(self.notes@),
        }
    }
}

/// The summary of `contents`.
pub open spec fn summary_of(capture_path: Seq<char>, contents: Table) -> Summary {
    let headers = contents.headers;
    let rows = live_rows(contents.records);
    Summary {
        success: true,
        capture_path,
        total_events: rows.len(),
        draw_calls: count_named(headers, rows, "draw"@),
        dispatches: count_named(headers, rows, "dispatch"@),
        resource_barriers: count_named(headers, rows, "barrier"@),
        render_target_changes: count_target_changes(headers, rows),
        copies: count_named(headers, rows, "copy"@),
        event_columns: frame_columns(headers),
        top_events: top_of(ranked(headers, rows)),
        notes: frame_notes(contents),
    }
}

/// The counts of the events of a frame.
struct Counts {
    total: usize,
    draws: usize,
    dispatches: usize,
    barriers: usize,
    target_changes: usize,
    copies: usize,
    any_cut: bool,
    top: Vec<TimedEvent>,
}

impl Counts {
    spec fn hold(&self, headers: Seq<Seq<char>>, rows: Seq<Seq<Seq<char>>>) -> bool {
        &&& self.total == rows.len()
        &&& self.draws == count_named(headers, rows, "draw"@) <= rows.len()
        &&& self.dispatches == count_named(headers, rows, "dispatch"@) <= rows.len()
        &&& self.barriers == count_named(headers, rows, "barrier"@) <= rows.len()
        &&& self.target_changes == count_target_changes(headers, rows) <= rows.len()
        &&& self.copies == count_named(headers, rows, "copy"@) <= rows.len()
        &&& self.any_cut == some_name_is_cut(headers, rows)
        &&& timed_views(self.top@) == top_of(ranked(headers, rows))
    }

    /// Counts the event in a row that holds something.
    fn count(
        &mut self,
        record: &Vec<String>,
        name_at: Option<usize>,
        time_at: Option<usize>,
        Ghost(headers): Ghost<Seq<Seq<char>>>,
        Ghost(rows): Ghost<Seq<Seq<Seq<char>>>>,
    )
        requires
            old(self).hold(headers, rows),
            rows.len() < usize::MAX,
            match name_at {
                Some(at) => name_column(headers) == Some(at as int),
                None => name_column(headers) is None,
            },
            match time_at {
                Some(at) => time_column(headers) == Some(at as int),
                None => time_column(headers) is None,
            },
        ensures
            final(self).hold(headers, rows.push(texts(record@))),
    {
        let ghost before = *self;
        let ghost fields = texts(record@);
        let ghost now = rows.push(fields);
        proof {
            assert(fields.len() == record.len());
            assert(now.drop_last() =~= rows);
            assert(now.last() == fields);
        }
        self.total += 1;
        let named: Option<(String, bool)> = match name_at {
            Some(at) => if at < record.len() {
                Some(truncate_utf8(&trim(&record[at]), MAX_FRAME_TEXT_FIELD_BYTES))
            } else {
                None
            },
            None => None,
        };
        let (name, was_cut) = match named {
            Some(found) => found,
            None => bounded_record_summary(record),
        };
        assert(name@ == event_name(headers, fields).0);
        assert(was_cut == event_name(headers, fields).1);
        self.any_cut = self.any_cut || was_cut;
        proof {
            assert(self.any_cut == some_name_is_cut(headers, now)) by {
                if some_name_is_cut(headers, rows) {
                    let i = choose|i: int|
                        0 <= i < rows.len() && event_name(headers, #[trigger] rows[i]).1;
                    assert(now[i] == rows[i]);
                }
                if was_cut {
                    assert(event_name(headers, now[rows.len() as int]).1);
                }
                if some_name_is_cut(headers, now) {
                    let i = choose|i: int|
                        0 <= i < now.len() && event_name(headers, #[trigger] now[i]).1;
                    if i < rows.len() {
                        assert(event_name(headers, rows[i]).1);
                    }
                }
            }
        }
        let hay = to_lower_ascii(&chars_of(&name));
        if chars_have_part(&hay, &chars_of("draw")) {
            self.draws += 1;
        }
        if chars_have_part(&hay, &chars_of("dispatch")) {
            self.dispatches += 1;
        }
        if chars_have_part(&hay, &chars_of("barrier")) {
            self.barriers += 1;
        }
        if chars_have_part(&hay, &chars_of("setrendertarget")) || chars_have_part(
            &hay,
            &chars_of("omsetrendertargets"),
        ) {
            self.target_changes += 1;
        }
        if chars_have_part(&hay, &chars_of("copy")) {
            self.copies += 1;
        }
        let time: Option<Double> = match time_at {
            Some(at) => if at < record.len() {
                read_finite(&trim(&record[at]))
            } else {
                None
            },
            None => None,
        };
        assert(match time {
            Some(number) => event_time(headers, fields) == Some((number.bits, number.json@)),
            None => event_time(headers, fields) is None,
        });
        if let Some(gpu_time) = time {
            proof {
                ranking_descends(headers, rows);
                lemma_top_of_ranked_in(
                    ranked(headers, rows),
                    Timed { event: name@, gpu_time: gpu_time.bits, json: gpu_time.json@ },
                );
            }
            let ghost s = timed_views(self.top@);
            rank_in(&mut self.top, TimedEvent { event: name, gpu_time });
            let ghost longer = timed_views(self.top@);
            self.top.truncate(TOP_EVENTS);
            assert(timed_views(self.top@) =~= top_of(longer));
        }
    }
}

/// Summarizes an event list, whatever the size of the summary.
pub fn summarize_frame(capture_path: &str, parsed: &ParsedCsv) -> (r: FrameInsights)
    ensures
        r@ == summary_of(capture_path@, parsed@),
{
    broadcast use lemma_texts_push;

    let ghost contents = parsed@;
    let ghost headers = contents.headers;
    let (columns, columns_truncated) = bounded_frame_columns(&parsed.headers);
    let name_at = find_name_column(&parsed.headers);
    let time_at = find_time_column(&parsed.headers);
    let mut counts = Counts {
        total: 0,
        draws: 0,
        dispatches: 0,
        barriers: 0,
        target_changes: 0,
        copies: 0,
        any_cut: false,
        top: Vec::new(),
    };
    let mut i: usize = 0;
    assert(contents.records.take(0) =~= seq![]);
    assert(timed_views(counts.top@) =~= seq![]);
    while i < parsed.records.len()
        invariant
            i <= parsed.records.len(),
            contents == parsed@,
            headers == contents.headers,
            live_rows(contents.records.take(i as int)).len() <= i,
            counts.hold(headers, live_rows(contents.records.take(i as int))),
            match name_at {
                Some(at) => name_column(headers) == Some(at as int),
                None => name_column(headers) is None,
            },
            match time_at {
                Some(at) => time_column(headers) == Some(at as int),
                None => time_column(headers) is None,
            },
        decreases parsed.records.len() - i,
    {
        let ghost before = live_rows(contents.records.take(i as int));
        proof {
            let now = contents.records.take(i + 1);
            assert(now.drop_last() =~= contents.records.take(i as int));
            assert(now.last() == texts(parsed.records@[i as int]@));
        }
        if !blank_row(&parsed.records[i]) {
            counts.count(&parsed.records[i], name_at, time_at, Ghost(headers), Ghost(before));
        }
        i += 1;
    }
    assert(contents.records.take(i as int) =~= contents.records);
    let mut notes: Vec<String> = Vec::new();
    notes.push(
        "Counts are heuristic, derived from event-name matching in the pixtool event list.".to_string(),
    );
    if name_at.is_none() {
        notes.push(
            "No event-name column detected; counts were matched against full rows and may be approximate.".to_string(),
        );
    }
    if time_at.is_none() {
        notes.push(
            "No GPU-timing column was present in the exported event list, so expensive events could not be ranked.".to_string(),
        );
    }
    if columns_truncated {
        notes.push(
            "Event column labels were truncated to keep the response within its inline budget.".to_string(),
        );
    }
    if counts.any_cut {
        notes.push(
            "Exceptionally long event names were truncated in the heuristic summary.".to_string(),
        );
    }
    assert(texts(notes@) =~= frame_notes(contents));
    FrameInsights {
        success: true,
        capture_path: capture_path.to_string(),
        total_events: counts.total,
        draw_calls: counts.draws,
        dispatches: counts.dispatches,
        resource_barriers: counts.barriers,
        render_target_changes: counts.target_changes,
        copies: counts.copies,
        event_columns: columns,
        top_events: counts.top,
        notes,
    }
}

} // verus!
