//! The answer to a comparison: its JSON, and how it is kept within its budget.

use crate::changes::EventCountChange;
use crate::columns::EventColumnComparison;
use crate::compare::{
    CaptureSide, CompareAnalysisMode, CompareReport, ComparisonDetail, EventComparisonScope,
    EventSequenceComparison, EventStructureComparison, GpuTimingComparison, TimingAggregate,
};
use crate::failure::Failure;
use crate::json::{
    json_array, json_array_text, json_bool, json_bool_text, json_list, json_list_text, json_object,
    json_object_text, json_text, member, no_members, optional_json_text, optional_member, put_count,
    put_member, put_optional, put_text_member, quoted, quoted_text,
};
use crate::numbers::{decimal, decimal_text, signed_decimal, signed_decimal_text};
use crate::text::{byte_len, lemma_texts_push, texts, utf8_len};
use vstd::prelude::*;
use vstd::string::*;

verus! {

/// How many bytes the JSON of an answer takes at most.
pub const MAX_COMPARE_REPORT_BYTES: usize = 1_048_576;

// ---------------------------------------------------------------------------
// JSON
// ---------------------------------------------------------------------------

impl CaptureSide {
    pub open spec fn members(&self) -> Seq<Seq<char>> {
        seq![
            member("path"@, quoted(self.path@)),
            member("size_bytes"@, decimal(self.size_bytes as nat)),
            member(
                "modified"@,
                match self.modified {
                    Some(seconds) => decimal(seconds as nat),
                    None => "null"@,
                },
            ),
        ]
    }

    pub open spec fn json(&self) -> Seq<char> {
        json_object(self.members())
    }

    /// The capture as JSON.
    pub fn to_json(&self) -> (r: String)
        ensures
            r@ == self.json(),
    {
        let mut members = no_members();
        put_text_member(&mut members, "path", &self.path);
        put_count(&mut members, "size_bytes", self.size_bytes);
        match self.modified {
            Some(seconds) => put_count(&mut members, "modified", seconds),
            None => put_member(&mut members, "modified", "null"),
        }
        assert(texts(members@) =~= self.members());
        json_object_text(&members)
    }
}

impl ComparisonDetail {
    pub open spec fn members(&self) -> Seq<Seq<char>> {
        seq![
            member("size_difference_bytes"@, signed_decimal(self.size_difference_bytes as int)),
            member("size_difference_percent"@, quoted(self.size_difference_percent@)),
            member("size_increased"@, json_bool(self.size_increased)),
            member("note"@, quoted(self.note@)),
        ]
    }

    pub open spec fn json(&self) -> Seq<char> {
        json_object(self.members())
    }

    /// The sizes as JSON.
    pub fn to_json(&self) -> (r: String)
        ensures
            r@ == self.json(),
    {
        let mut members = no_members();
        put_member(
            &mut members,
            "size_difference_bytes",
            &signed_decimal_text(self.size_difference_bytes),
        );
        put_text_member(&mut members, "size_difference_percent", &self.size_difference_percent);
        put_member(&mut members, "size_increased", json_bool_text(self.size_increased));
        put_text_member(&mut members, "note", &self.note);
        assert(texts(members@) =~= self.members());
        json_object_text(&members)
    }
}

impl EventCountChange {
    pub open spec fn members(&self) -> Seq<Seq<char>> {
        seq![
            member("queue_id"@, quoted(self.queue_id@)),
            member("event_name"@, quoted(self.event_name@)),
            member("baseline_count"@, decimal(self.baseline_count as nat)),
            member("comparison_count"@, decimal(self.comparison_count as nat)),
            member("difference"@, signed_decimal(self.difference as int)),
        ]
    }

    pub open spec fn json(&self) -> Seq<char> {
        json_object(self.members())
    }

    /// The change as JSON.
    pub fn to_json(&self) -> (r: String)
        ensures
            r@ == self.json(),
    {
        let mut members = no_members();
        put_text_member(&mut members, "queue_id", &self.queue_id);
        put_text_member(&mut members, "event_name", &self.event_name);
        put_count(&mut members, "baseline_count", self.baseline_count as u64);
        put_count(&mut members, "comparison_count", self.comparison_count as u64);
        put_member(&mut members, "difference", &signed_decimal_text(self.difference));
        assert(texts(members@) =~= self.members());
        json_object_text(&members)
    }
}

/// The JSON of every change.
pub open spec fn change_texts(changes: Seq<EventCountChange>) -> Seq<Seq<char>> {
    changes.map_values(|change: EventCountChange| change.json())
}

fn write_changes(changes: &Vec<EventCountChange>) -> (r: String)
    ensures
        r@ == json_list(change_texts(changes@)),
{
    broadcast use lemma_texts_push;

    let mut items: Vec<String> = Vec::new();
    let mut i: usize = 0;
    assert(texts(items@) =~= change_texts(changes@).take(0));
    while i < changes.len()
        invariant
            i <= changes.len(),
            texts(items@) == change_texts(changes@).take(i as int),
        decreases changes.len() - i,
    {
        items.push(changes[i].to_json());
        assert(change_texts(changes@).take(i + 1) =~= change_texts(changes@).take(i as int).push(
            changes@[i as int].json(),
        ));
        i += 1;
    }
    assert(change_texts(changes@).take(i as int) =~= change_texts(changes@));
    json_list_text(&items)
}

impl EventSequenceComparison {
    pub open spec fn members(&self) -> Seq<Seq<char>> {
        seq![
            member("compared_positions"@, decimal(self.compared_positions as nat)),
            member("exact_position_matches"@, decimal(self.exact_position_matches as nat)),
            member(
                "exact_position_match_percent"@,
                quoted(self.exact_position_match_percent@),
            ),
            member("common_prefix_events"@, decimal(self.common_prefix_events as nat)),
        ] + optional_member(
            "common_suffix_events"@,
            match self.common_suffix_events {
                Some(n) => Some(decimal(n as nat)),
                None => None,
            },
        )
    }

    pub open spec fn json(&self) -> Seq<char> {
        json_object(self.members())
    }

    /// The sequences as JSON.
    pub fn to_json(&self) -> (r: String)
        ensures
            r@ == self.json(),
    {
        let mut members = no_members();
        put_count(&mut members, "compared_positions", self.compared_positions as u64);
        put_count(&mut members, "exact_position_matches", self.exact_position_matches as u64);
        put_text_member(
            &mut members,
            "exact_position_match_percent",
            &self.exact_position_match_percent,
        );
        put_count(&mut members, "common_prefix_events", self.common_prefix_events as u64);
        let suffix = match self.common_suffix_events {
            Some(n) => Some(decimal_text(n as u64)),
            None => None,
        };
        put_optional(&mut members, "common_suffix_events", &suffix);
        assert(texts(members@) =~= self.members());
        json_object_text(&members)
    }
}

impl EventColumnComparison {
    /// The columns as JSON, with `added` and `removed` in place of the columns that are named.
    pub open spec fn members_with(
        &self,
        added: Seq<Seq<char>>,
        removed: Seq<Seq<char>>,
        truncated: bool,
    ) -> Seq<Seq<char>> {
        seq![
            member("added_count"@, decimal(self.added_count as nat)),
            member("removed_count"@, decimal(self.removed_count as nat)),
            member("added"@, json_array(added)),
            member("removed"@, json_array(removed)),
            member("truncated"@, json_bool(truncated)),
        ]
    }

    pub open spec fn json_with(
        &self,
        added: Seq<Seq<char>>,
        removed: Seq<Seq<char>>,
        truncated: bool,
    ) -> Seq<char> {
        json_object(self.members_with(added, removed, truncated))
    }

    pub open spec fn json(&self) -> Seq<char> {
        self.json_with(texts(self.added@), texts(self.removed@), self.truncated)
    }

    /// The columns as JSON.
    pub fn to_json(&self) -> (r: String)
        ensures
            r@ == self.json(),
    {
        let mut members = no_members();
        put_count(&mut members, "added_count", self.added_count as u64);
        put_count(&mut members, "removed_count", self.removed_count as u64);
        put_member(&mut members, "added", &json_array_text(&self.added));
        put_member(&mut members, "removed", &json_array_text(&self.removed));
        put_member(&mut members, "truncated", json_bool_text(self.truncated));
        assert(texts(members@) =~= self.members_with(texts(self.added@), texts(self.removed@), self.truncated));
        json_object_text(&members)
    }
}

impl EventComparisonScope {
    pub open spec fn json(&self) -> Seq<char> {
        match self {
            EventComparisonScope::FullCapture => quoted("full_capture"@),
            EventComparisonScope::Prefix => quoted("prefix"@),
        }
    }

    /// The scope as JSON.
    pub fn to_json(&self) -> (r: String)
        ensures
            r@ == self.json(),
    {
        match self {
            EventComparisonScope::FullCapture => json_text("full_capture"),
            EventComparisonScope::Prefix => json_text("prefix"),
        }
    }
}

impl EventStructureComparison {
    /// The structure as JSON, with `columns` and `changes` in place of its own.
    pub open spec fn members_with(
        &self,
        columns: Seq<char>,
        changes: Seq<EventCountChange>,
        changes_truncated: bool,
    ) -> Seq<Seq<char>> {
        seq![
            member("scope"@, self.scope.json()),
            member("baseline_total_events"@, decimal(self.baseline_total_events as nat)),
            member("comparison_total_events"@, decimal(self.comparison_total_events as nat)),
            member(
                "total_event_difference"@,
                signed_decimal(self.total_event_difference as int),
            ),
            member("baseline_analyzed_events"@, decimal(self.baseline_analyzed_events as nat)),
            member(
                "comparison_analyzed_events"@,
                decimal(self.comparison_analyzed_events as nat),
            ),
            member("truncated"@, json_bool(self.truncated)),
            member("sequence"@, self.sequence.json()),
            member("columns"@, columns),
            member("changed_event_kinds"@, decimal(self.changed_event_kinds as nat)),
            member("changes_truncated"@, json_bool(changes_truncated)),
            member("top_changes"@, json_list(change_texts(changes))),
        ]
    }

    pub open spec fn json_with(
        &self,
        columns: Seq<char>,
        changes: Seq<EventCountChange>,
        changes_truncated: bool,
    ) -> Seq<char> {
        json_object(self.members_with(columns, changes, changes_truncated))
    }

    pub open spec fn json(&self) -> Seq<char> {
        self.json_with(self.columns.json(), self.top_changes@, self.changes_truncated)
    }

    /// The structure as JSON.
    pub fn to_json(&self) -> (r: String)
        ensures
            r@ == self.json(),
    {
        let mut members = no_members();
        put_member(&mut members, "scope", &self.scope.to_json());
        put_count(&mut members, "baseline_total_events", self.baseline_total_events as u64);
        put_count(&mut members, "comparison_total_events", self.comparison_total_events as u64);
        put_member(
            &mut members,
            "total_event_difference",
            &signed_decimal_text(self.total_event_difference),
        );
        put_count(&mut members, "baseline_analyzed_events", self.baseline_analyzed_events as u64);
        put_count(
            &mut members,
            "comparison_analyzed_events",
            self.comparison_analyzed_events as u64,
        );
        put_member(&mut members, "truncated", json_bool_text(self.truncated));
        put_member(&mut members, "sequence", &self.sequence.to_json());
        put_member(&mut members, "columns", &self.columns.to_json());
        put_count(&mut members, "changed_event_kinds", self.changed_event_kinds as u64);
        put_member(&mut members, "changes_truncated", json_bool_text(self.changes_truncated));
        put_member(&mut members, "top_changes", &write_changes(&self.top_changes));
        assert(texts(members@) =~= self.members_with(self.columns.json(), self.top_changes@, self.changes_truncated));
        json_object_text(&members)
    }
}

impl TimingAggregate {
    pub open spec fn members(&self) -> Seq<Seq<char>> {
        seq![
            member("samples"@, decimal(self.samples as nat)),
            member("sum"@, self.sum.json@),
            member("mean"@, self.mean.json@),
        ]
    }

    pub open spec fn json(&self) -> Seq<char> {
        json_object(self.members())
    }

    /// The aggregate as JSON.
    pub fn to_json(&self) -> (r: String)
        ensures
            r@ == self.json(),
    {
        let mut members = no_members();
        put_count(&mut members, "samples", self.samples as u64);
        put_member(&mut members, "sum", &self.sum.json);
        put_member(&mut members, "mean", &self.mean.json);
        assert(texts(members@) =~= self.members());
        json_object_text(&members)
    }
}

impl GpuTimingComparison {
    pub open spec fn members(&self) -> Seq<Seq<char>> {
        seq![
            member("column"@, quoted(self.column@)),
            member("baseline"@, self.baseline.json()),
            member("comparison"@, self.comparison.json()),
        ] + optional_member(
            "sum_difference_percent"@,
            quoted_text(self.sum_difference_percent),
        ) + seq![member("note"@, quoted(self.note@))]
    }

    pub open spec fn json(&self) -> Seq<char> {
        json_object(self.members())
    }

    /// The timing as JSON.
    pub fn to_json(&self) -> (r: String)
        ensures
            r@ == self.json(),
    {
        let mut members = no_members();
        put_text_member(&mut members, "column", &self.column);
        put_member(&mut members, "baseline", &self.baseline.to_json());
        put_member(&mut members, "comparison", &self.comparison.to_json());
        put_optional(
            &mut members,
            "sum_difference_percent",
            &optional_json_text(&self.sum_difference_percent),
        );
        put_text_member(&mut members, "note", &self.note);
        proof {
            assert(texts(members@) =~= seq![
                member("column"@, quoted(self.column@)),
                member("baseline"@, self.baseline.json()),
                member("comparison"@, self.comparison.json()),
            ] + optional_member(
                "sum_difference_percent"@,
                quoted_text(self.sum_difference_percent),
            ) + seq![member("note"@, quoted(self.note@))]);
        }
        assert(texts(members@) =~= self.members());
        json_object_text(&members)
    }
}

impl CompareAnalysisMode {
    pub open spec fn json(&self) -> Seq<char> {
        match self {
            CompareAnalysisMode::EventStructure => quoted("event_structure"@),
            CompareAnalysisMode::MetadataOnly => quoted("metadata_only"@),
        }
    }

    /// The mode as JSON.
    pub fn to_json(&self) -> (r: String)
        ensures
            r@ == self.json(),
    {
        match self {
            CompareAnalysisMode::EventStructure => json_text("event_structure"),
            CompareAnalysisMode::MetadataOnly => json_text("metadata_only"),
        }
    }
}

/// An optional structure as JSON.
pub open spec fn structure_json(structure: Option<EventStructureComparison>) -> Option<Seq<char>> {
    match structure {
        Some(structure) => Some(structure.json()),
        None => None,
    }
}

/// An optional timing as JSON.
pub open spec fn timing_json(timing: Option<GpuTimingComparison>) -> Option<Seq<char>> {
    match timing {
        Some(timing) => Some(timing.json()),
        None => None,
    }
}

impl CompareReport {
    /// The answer as JSON, with a structure, a timing and warnings in place of its own.
    pub open spec fn members_with(
        &self,
        structure: Option<Seq<char>>,
        timing: Option<Seq<char>>,
        warnings: Seq<Seq<char>>,
    ) -> Seq<Seq<char>> {
        seq![
            member("success"@, json_bool(self.success)),
            member("capture_a"@, self.capture_a.json()),
            member("capture_b"@, self.capture_b.json()),
            member("comparison"@, self.comparison.json()),
            member("analysis_mode"@, self.analysis_mode.json()),
        ] + optional_member("event_structure"@, structure) + optional_member(
            "gpu_timing"@,
            timing,
        ) + seq![
            member("warnings"@, json_array(warnings)),
            member("suggestion"@, quoted(self.suggestion@)),
        ]
    }

    pub open spec fn json_with(
        &self,
        structure: Option<Seq<char>>,
        timing: Option<Seq<char>>,
        warnings: Seq<Seq<char>>,
    ) -> Seq<char> {
        json_object(self.members_with(structure, timing, warnings))
    }

    pub open spec fn json(&self) -> Seq<char> {
        self.json_with(
            structure_json(self.event_structure),
            timing_json(self.gpu_timing),
            texts(self.warnings@),
        )
    }

    /// The answer as JSON.
    pub fn to_json(&self) -> (r: String)
        ensures
            r@ == self.json(),
    {
        let mut members = no_members();
        put_member(&mut members, "success", json_bool_text(self.success));
        put_member(&mut members, "capture_a", &self.capture_a.to_json());
        put_member(&mut members, "capture_b", &self.capture_b.to_json());
        put_member(&mut members, "comparison", &self.comparison.to_json());
        put_member(&mut members, "analysis_mode", &self.analysis_mode.to_json());
        let ghost first = texts(members@);
        let structure = match &self.event_structure {
            Some(structure) => Some(structure.to_json()),
            None => None,
        };
        put_optional(&mut members, "event_structure", &structure);
        let timing = match &self.gpu_timing {
            Some(timing) => Some(timing.to_json()),
            None => None,
        };
        put_optional(&mut members, "gpu_timing", &timing);
        let ghost middle = texts(members@);
        put_member(&mut members, "warnings", &json_array_text(&self.warnings));
        put_text_member(&mut members, "suggestion", &self.suggestion);
        assert(texts(members@) =~= middle + seq![
            member("warnings"@, json_array(texts(self.warnings@))),
            member("suggestion"@, quoted(self.suggestion@)),
        ]);
        assert(texts(members@) =~= self.members_with(
            structure_json(self.event_structure),
            timing_json(self.gpu_timing),
            texts(self.warnings@),
        ));
        json_object_text(&members)
    }
}

// ---------------------------------------------------------------------------
// Keeping within the budget
// ---------------------------------------------------------------------------

/// How much of an answer is kept: its leading changes and columns, and its timing.
pub struct Kept {
    pub changes: nat,
    pub added: nat,
    pub removed: nat,
    pub timing: bool,
}

impl Kept {
    /// How much can still be left out.
    pub open spec fn bulk(self) -> nat {
        self.changes + self.added + self.removed + if self.timing {
            1nat
        } else {
            0nat
        }
    }

    /// What is kept when one thing more is left out: the last change, or else the last column
    /// that was added, or else the last that was removed, or else the timing.
    pub open spec fn less(self) -> Option<Kept> {
        if self.changes > 0 {
            Some(Kept { changes: (self.changes - 1) as nat, ..self })
        } else if self.added > 0 {
            Some(Kept { added: (self.added - 1) as nat, ..self })
        } else if self.removed > 0 {
            Some(Kept { removed: (self.removed - 1) as nat, ..self })
        } else if self.timing {
            Some(Kept { timing: false, ..self })
        } else {
            None
        }
    }
}

pub open spec fn timing_omitted_text() -> Seq<char> {
    "GPU timing aggregate was omitted to keep the comparison response within 1 MiB."@
}

impl EventStructureComparison {
    /// Whether `out` is this structure with only so much of it kept, and says so.
    pub open spec fn is_kept(&self, kept: Kept, out: EventStructureComparison) -> bool {
        &&& kept.changes <= self.top_changes@.len()
        &&& kept.added <= self.columns.added@.len()
        &&& kept.removed <= self.columns.removed@.len()
        &&& out.scope == self.scope
        &&& out.baseline_total_events == self.baseline_total_events
        &&& out.comparison_total_events == self.comparison_total_events
        &&& out.total_event_difference == self.total_event_difference
        &&& out.baseline_analyzed_events == self.baseline_analyzed_events
        &&& out.comparison_analyzed_events == self.comparison_analyzed_events
        &&& out.truncated == self.truncated
        &&& out.sequence == self.sequence
        &&& out.changed_event_kinds == self.changed_event_kinds
        &&& out.top_changes@ == self.top_changes@.take(kept.changes as int)
        &&& out.changes_truncated == self.changes_are_cut(kept)
        &&& out.columns.added_count == self.columns.added_count
        &&& out.columns.removed_count == self.columns.removed_count
        &&& out.columns.added@ == self.columns.added@.take(kept.added as int)
        &&& out.columns.removed@ == self.columns.removed@.take(kept.removed as int)
        &&& out.columns.truncated == self.columns_are_cut(kept)
    }

    /// Whether changes are left out.
    pub open spec fn changes_are_cut(&self, kept: Kept) -> bool {
        self.changes_truncated || kept.changes < self.top_changes@.len()
    }

    /// Whether columns are left out.
    pub open spec fn columns_are_cut(&self, kept: Kept) -> bool {
        self.columns.truncated || kept.added < self.columns.added@.len() || kept.removed
            < self.columns.removed@.len()
    }

    /// The JSON of as much of this structure as is kept.
    pub open spec fn kept_json(&self, kept: Kept) -> Seq<char> {
        self.json_with(
            self.columns.json_with(
                texts(self.columns.added@).take(kept.added as int),
                texts(self.columns.removed@).take(kept.removed as int),
                self.columns_are_cut(kept),
            ),
            self.top_changes@.take(kept.changes as int),
            self.changes_are_cut(kept),
        )
    }
}

impl CompareReport {
    /// All of the answer.
    pub open spec fn whole(&self) -> Kept {
        Kept {
            changes: match self.event_structure {
                Some(structure) => structure.top_changes@.len(),
                None => 0,
            },
            added: match self.event_structure {
                Some(structure) => structure.columns.added@.len(),
                None => 0,
            },
            removed: match self.event_structure {
                Some(structure) => structure.columns.removed@.len(),
                None => 0,
            },
            timing: self.gpu_timing is Some,
        }
    }

    /// What is warned of where only so much of the answer is kept.
    pub open spec fn kept_warnings(&self, kept: Kept) -> Seq<Seq<char>> {
        if self.gpu_timing is Some && !kept.timing {
            texts(self.warnings@).push(timing_omitted_text())
        } else {
            texts(self.warnings@)
        }
    }

    /// The JSON of as much of the answer as is kept.
    pub open spec fn kept_json(&self, kept: Kept) -> Seq<char> {
        self.json_with(
            match self.event_structure {
                Some(structure) => Some(structure.kept_json(kept)),
                None => None,
            },
            if kept.timing {
                timing_json(self.gpu_timing)
            } else {
                None
            },
            self.kept_warnings(kept),
        )
    }

    /// Whether as much of the answer as is kept is within the budget.
    pub open spec fn fits(&self, kept: Kept) -> bool {
        utf8_len(self.kept_json(kept)) <= MAX_COMPARE_REPORT_BYTES
    }

    /// How much is kept when things are left out of what `kept` keeps, one by one, until the
    /// rest fits; nothing where it never does.
    pub open spec fn fitted_from(&self, kept: Kept) -> Option<Kept>
        decreases kept.bulk(),
    {
        if self.fits(kept) {
            Some(kept)
        } else {
            match kept.less() {
                Some(less) => self.fitted_from(less),
                None => None,
            }
        }
    }

    /// Whether `out` is this answer with only so much of it kept, and says so.
    pub open spec fn is_kept(&self, kept: Kept, out: CompareReport) -> bool {
        &&& out.success == self.success
        &&& out.capture_a == self.capture_a
        &&& out.capture_b == self.capture_b
        &&& out.comparison == self.comparison
        &&& out.analysis_mode == self.analysis_mode
        &&& out.suggestion == self.suggestion
        &&& match (self.event_structure, out.event_structure) {
            (Some(structure), Some(trimmed)) => structure.is_kept(kept, trimmed),
            (None, None) => kept.changes == 0 && kept.added == 0 && kept.removed == 0,
            _ => false,
        }
        &&& kept.timing ==> self.gpu_timing is Some
        &&& out.gpu_timing == if kept.timing {
            self.gpu_timing
        } else {
            None
        }
        &&& texts(out.warnings@) == self.kept_warnings(kept)
    }
}

proof fn lemma_structure_json(
    structure: EventStructureComparison,
    kept: Kept,
    out: EventStructureComparison,
)
    requires
        structure.is_kept(kept, out),
    ensures
        out.json() == structure.kept_json(kept),
{
    assert(texts(out.columns.added@) =~= texts(structure.columns.added@).take(kept.added as int));
    assert(texts(out.columns.removed@) =~= texts(structure.columns.removed@).take(
        kept.removed as int,
    ));
}

/// What is kept has the JSON that it was measured by.
proof fn lemma_kept_json(report: CompareReport, kept: Kept, out: CompareReport)
    requires
        report.is_kept(kept, out),
    ensures
        out.json() == report.kept_json(kept),
{
    if let (Some(structure), Some(trimmed)) = (report.event_structure, out.event_structure) {
        lemma_structure_json(structure, kept, trimmed);
    }
}

/// The answer that is given keeps within its budget, and nothing was left out without need: with
/// the last thing that was left out it would not fit.
pub proof fn fitted_answer_is_the_largest(report: CompareReport, kept: Kept)
    ensures
        report.fitted_from(kept) matches Some(found) ==> {
            &&& report.fits(found)
            &&& found == kept || exists|more: Kept|
                !report.fits(more) && #[trigger] more.less() == Some(found)
        },
    decreases kept.bulk(),
{
    if !report.fits(kept) {
        if let Some(less) = kept.less() {
            fitted_answer_is_the_largest(report, less);
        }
    }
}

/// All of an answer is the answer.
proof fn lemma_whole(report: CompareReport)
    ensures
        report.is_kept(report.whole(), report),
{
    let kept = report.whole();
    if let Some(structure) = report.event_structure {
        assert(structure.top_changes@.take(kept.changes as int) =~= structure.top_changes@);
        assert(structure.columns.added@.take(kept.added as int) =~= structure.columns.added@);
        assert(structure.columns.removed@.take(kept.removed as int)
            =~= structure.columns.removed@);
    }
}

/// Leaves one thing out of the structure, if there is one.
fn trim_structure(
    structure: &mut EventStructureComparison,
    Ghost(given): Ghost<EventStructureComparison>,
    Ghost(kept): Ghost<Kept>,
) -> (r: bool)
    requires
        given.is_kept(kept, *old(structure)),
    ensures
        r == (kept.changes > 0 || kept.added > 0 || kept.removed > 0),
        r ==> kept.less() is Some && given.is_kept(kept.less()->0, *final(structure)),
        !r ==> *final(structure) == *old(structure),
{
    if structure.top_changes.len() > 0 {
        let _ = structure.top_changes.pop();
        structure.changes_truncated = true;
        assert(structure.top_changes@ =~= given.top_changes@.take(kept.changes - 1));
        return true;
    }
    if structure.columns.added.len() > 0 {
        let _ = structure.columns.added.pop();
        structure.columns.truncated = true;
        assert(structure.columns.added@ =~= given.columns.added@.take(kept.added - 1));
        return true;
    }
    if structure.columns.removed.len() > 0 {
        let _ = structure.columns.removed.pop();
        structure.columns.truncated = true;
        assert(structure.columns.removed@ =~= given.columns.removed@.take(kept.removed - 1));
        return true;
    }
    false
}

/// Leaves one thing out of an answer, if there is one.
fn trim_report(
    report: CompareReport,
    Ghost(given): Ghost<CompareReport>,
    Ghost(kept): Ghost<Kept>,
) -> (r: Option<CompareReport>)
    requires
        given.is_kept(kept, report),
    ensures
        r is Some == kept.less() is Some,
        r is Some ==> given.is_kept(kept.less()->0, r->0),
{
    broadcast use lemma_texts_push;

    let mut report = report;
    if let Some(mut structure) = report.event_structure {
        let trimmed = trim_structure(
            &mut structure,
            Ghost(given.event_structure->0),
            Ghost(kept),
        );
        report.event_structure = Some(structure);
        if trimmed {
            return Some(report);
        }
    } else {
        report.event_structure = None;
    }
    if report.gpu_timing.is_none() {
        return None;
    }
    report.gpu_timing = None;
    report.warnings.push(
        "GPU timing aggregate was omitted to keep the comparison response within 1 MiB.".to_string(),
    );
    Some(report)
}

/// Leaves things out of an answer, least important first, until its JSON is within the budget.
pub fn fit_compare_report(report: CompareReport) -> (r: Result<CompareReport, Failure>)
    ensures
        match report.fitted_from(report.whole()) {
            Some(kept) => r is Ok && report.is_kept(kept, r->Ok_0) && utf8_len(r->Ok_0.json())
                <= MAX_COMPARE_REPORT_BYTES,
            None => r is Err && r->Err_0.message@
                == "Capture comparison exceeded its 1048576 byte inline response budget"@,
        },
{
    let ghost given = report;
    let ghost mut kept = report.whole();
    proof {
        lemma_whole(report);
    }
    let mut current = report;
    loop
        invariant
            given == report,
            given.is_kept(kept, current),
            given.fitted_from(given.whole()) == given.fitted_from(kept),
        decreases kept.bulk(),
    {
        proof {
            lemma_kept_json(given, kept, current);
        }
        if byte_len(&current.to_json()) <= MAX_COMPARE_REPORT_BYTES {
            return Ok(current);
        }
        match trim_report(current, Ghost(given), Ghost(kept)) {
            Some(trimmed) => {
                current = trimmed;
                proof {
                    kept = kept.less()->0;
                }
            },
            None => {
                return Err(
                    Failure::of(
                        "Capture comparison exceeded its 1048576 byte inline response budget",
                    ),
                );
            },
        }
    }
}

} // verus!
