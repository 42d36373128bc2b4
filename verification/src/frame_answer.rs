//! The answer to a request for a summary of a frame: its JSON, and how it is kept within its
//! budget.

use crate::failure::Failure;
use crate::frame::{summarize_frame, summary_of, timed_views, FrameInsights, Summary, Timed, TimedEvent};
use crate::json::{
    json_array, json_array_text, json_bool, json_bool_text, json_list, json_list_text, json_object,
    json_object_text, member, no_members, put_count, put_member, put_text_member, quoted,
};
use crate::numbers::decimal;
use crate::tables::ParsedCsv;
use crate::text::{byte_len, lemma_texts_push, texts, utf8_len};
use vstd::prelude::*;
use vstd::string::*;

verus! {

/// How many bytes the JSON of an answer about one capture takes at most.
pub const MAX_INLINE_ANALYSIS_PAYLOAD_BYTES: usize = 1_048_576;

impl Timed {
    pub open spec fn members(self) -> Seq<Seq<char>> {
        seq![member("event"@, quoted(self.event)), member("gpu_time"@, self.json)]
    }

    pub open spec fn written(self) -> Seq<char> {
        json_object(self.members())
    }
}

/// The JSON of every event.
pub open spec fn timed_texts(events: Seq<Timed>) -> Seq<Seq<char>> {
    events.map_values(|event: Timed| event.written())
}

impl TimedEvent {
    /// The event as JSON.
    pub fn to_json(&self) -> (r: String)
        ensures
            r@ == self@.written(),
    {
        let mut members = no_members();
        put_text_member(&mut members, "event", &self.event);
        put_member(&mut members, "gpu_time", &self.gpu_time.json);
        assert(texts(members@) =~= self@.members());
        json_object_text(&members)
    }
}

fn write_events(events: &Vec<TimedEvent>) -> (r: String)
    ensures
        r@ == json_list(timed_texts(timed_views(events@))),
{
    broadcast use lemma_texts_push;

    let ghost all = timed_texts(timed_views(events@));
    let mut items: Vec<String> = Vec::new();
    let mut i: usize = 0;
    assert(texts(items@) =~= all.take(0));
    while i < events.len()
        invariant
            i <= events.len(),
            all == timed_texts(timed_views(events@)),
            texts(items@) == all.take(i as int),
        decreases events.len() - i,
    {
        items.push(events[i].to_json());
        assert(all[i as int] == events@[i as int]@.written());
        assert(all.take(i + 1) =~= all.take(i as int).push(all[i as int]));
        i += 1;
    }
    assert(all.take(i as int) =~= all);
    json_list_text(&items)
}

impl Summary {
    pub open spec fn members(self) -> Seq<Seq<char>> {
        seq![
            member("success"@, json_bool(self.success)),
            member("capture_path"@, quoted(self.capture_path)),
            member("total_events"@, decimal(self.total_events)),
            member("draw_calls"@, decimal(self.draw_calls)),
            member("dispatches"@, decimal(self.dispatches)),
            member("resource_barriers"@, decimal(self.resource_barriers)),
            member("render_target_changes"@, decimal(self.render_target_changes)),
            member("copies"@, decimal(self.copies)),
            member("event_columns"@, json_array(self.event_columns)),
            member("top_events"@, json_list(timed_texts(self.top_events))),
            member("notes"@, json_array(self.notes)),
        ]
    }

    pub open spec fn json(self) -> Seq<char> {
        json_object(self.members())
    }

    /// Whether the summary is within the budget.
    pub open spec fn fits(self) -> bool {
        utf8_len(self.json()) <= MAX_INLINE_ANALYSIS_PAYLOAD_BYTES
    }

    /// The summary with a note that something was left out.
    pub open spec fn noted(self) -> Summary {
        Summary { notes: self.notes.push(omission_note()), ..self }
    }

    /// The summary without its last top event, or else without its last column.
    pub open spec fn less(self) -> Option<Summary> {
        if self.top_events.len() > 0 {
            Some(Summary { top_events: self.top_events.drop_last(), ..self })
        } else if self.event_columns.len() > 0 {
            Some(Summary { event_columns: self.event_columns.drop_last(), ..self })
        } else {
            None
        }
    }

    /// The summary after things were left out of it, one by one, until it fits; nothing where
    /// it never does.
    pub open spec fn trimmed_to_fit(self) -> Option<Summary>
        decreases self.top_events.len() + self.event_columns.len(),
    {
        if self.fits() {
            Some(self)
        } else {
            match self.less() {
                Some(less) => less.trimmed_to_fit(),
                None => None,
            }
        }
    }

    /// The summary as it is returned: as it is where it fits, and otherwise with a note and
    /// without what would not fit. At least one thing is then left out.
    pub open spec fn fitted(self) -> Option<Summary> {
        if self.fits() {
            Some(self)
        } else {
            match self.noted().less() {
                Some(less) => less.trimmed_to_fit(),
                None => None,
            }
        }
    }
}

pub open spec fn omission_note() -> Seq<char> {
    "Some event columns or top events were omitted to stay within the inline response budget."@
}

impl FrameInsights {
    /// The summary as JSON.
    pub fn to_json(&self) -> (r: String)
        ensures
            r@ == self@.json(),
    {
        let mut members = no_members();
        put_member(&mut members, "success", json_bool_text(self.success));
        put_text_member(&mut members, "capture_path", &self.capture_path);
        put_count(&mut members, "total_events", self.total_events as u64);
        put_count(&mut members, "draw_calls", self.draw_calls as u64);
        put_count(&mut members, "dispatches", self.dispatches as u64);
        put_count(&mut members, "resource_barriers", self.resource_barriers as u64);
        put_count(&mut members, "render_target_changes", self.render_target_changes as u64);
        put_count(&mut members, "copies", self.copies as u64);
        put_member(&mut members, "event_columns", &json_array_text(&self.event_columns));
        put_member(&mut members, "top_events", &write_events(&self.top_events));
        put_member(&mut members, "notes", &json_array_text(&self.notes));
        assert(texts(members@) =~= self@.members());
        json_object_text(&members)
    }
}

/// Leaves one thing out of a summary, if there is one.
fn trim_frame(report: &mut FrameInsights) -> (r: bool)
    ensures
        r == old(report)@.less() is Some,
        r ==> final(report)@ == old(report)@.less()->0,
        !r ==> *final(report) == *old(report),
{
    let ghost before = report@;
    if report.top_events.len() > 0 {
        let _ = report.top_events.pop();
        assert(timed_views(report.top_events@) =~= before.top_events.drop_last());
        return true;
    }
    assert(before.top_events.len() == 0);
    if report.event_columns.len() > 0 {
        let _ = report.event_columns.pop();
        assert(texts(report.event_columns@) =~= before.event_columns.drop_last());
        return true;
    }
    assert(before.event_columns.len() == 0);
    false
}

/// Leaves things out of a summary, least important first, until its JSON is within the budget.
pub fn fit_frame_insights_payload(report: FrameInsights) -> (r: Result<FrameInsights, Failure>)
    ensures
        match report@.fitted() {
            Some(expected) => r is Ok && r->Ok_0@ == expected,
            None => r is Err && r->Err_0.message@
                == "Frame-insights report exceeded its 1048576 byte inline budget"@,
        },
{
    broadcast use lemma_texts_push;

    let ghost given = report@;
    let mut report = report;
    if byte_len(&report.to_json()) <= MAX_INLINE_ANALYSIS_PAYLOAD_BYTES {
        return Ok(report);
    }
    report.notes.push(
        "Some event columns or top events were omitted to stay within the inline response budget.".to_string(),
    );
    assert(report@ == given.noted());
    let mut trimmed = trim_frame(&mut report);
    while trimmed && byte_len(&report.to_json()) > MAX_INLINE_ANALYSIS_PAYLOAD_BYTES
        invariant
            !given.fits(),
            trimmed ==> given.fitted() == report@.trimmed_to_fit(),
            !trimmed ==> given.fitted() is None,
        ensures
            trimmed ==> report@.fits(),
        decreases report@.top_events.len() + report@.event_columns.len(), (if trimmed {
            1int
        } else {
            0int
        }),
    {
        trimmed = trim_frame(&mut report);
    }
    if trimmed {
        Ok(report)
    } else {
        Err(Failure::of("Frame-insights report exceeded its 1048576 byte inline budget"))
    }
}

/// Summarizes an event list within the budget.
pub fn frame_insights_from_csv(capture_path: &str, parsed: &ParsedCsv) -> (r: Result<
    FrameInsights,
    Failure,
>)
    ensures
        match summary_of(capture_path@, parsed@).fitted() {
            Some(expected) => r is Ok && r->Ok_0@ == expected,
            None => r is Err && r->Err_0.message@
                == "Frame-insights report exceeded its 1048576 byte inline budget"@,
        },
{
    fit_frame_insights_payload(summarize_frame(capture_path, parsed))
}

proof fn lemma_trimmed_to_fit(summary: Summary)
    ensures
        summary.trimmed_to_fit() matches Some(found) ==> found.fits() && (found == summary
            || exists|more: Summary| !more.fits() && #[trigger] more.less() == Some(found)),
    decreases summary.top_events.len() + summary.event_columns.len(),
{
    if !summary.fits() {
        if let Some(less) = summary.less() {
            lemma_trimmed_to_fit(less);
        }
    }
}

/// A summary that is returned keeps within its budget. Where something was left out, the note
/// says so, and either only one thing was, or with the last thing that was left out it would
/// not fit.
pub proof fn fitted_summary_is_the_largest(summary: Summary)
    ensures
        summary.fitted() matches Some(found) ==> {
            &&& found.fits()
            &&& found != summary ==> {
                &&& !summary.fits()
                &&& summary.noted().less() == Some(found) || exists|more: Summary|
                    !more.fits() && #[trigger] more.less() == Some(found)
            }
        },
{
    if !summary.fits() {
        if let Some(less) = summary.noted().less() {
            lemma_trimmed_to_fit(less);
        }
    }
}

} // verus!
