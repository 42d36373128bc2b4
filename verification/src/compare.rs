//! Two captures side by side: sizes, event structure and GPU timing.

use crate::changes::{change_views, is_ranking, rank_changes, Change, EventCountChange};
use crate::columns::{compare_columns, EventColumnComparison};
use crate::events::least;
use crate::failure::Failure;
use crate::finite::{bits_are_finite, is_finite, is_zero, Double};
use crate::numbers::{decimal, decimal_text};
use crate::pixtool::{seconds_or_zero, FileTime};
use crate::sequences::{
    common_prefix, common_suffix, count_common_prefix, count_common_suffix, count_position_matches,
    kinds, position_matches, ComparisonCsv, ComparisonEvent,
};
use crate::text::{
    concat3, eq_ignoring_case, lemma_texts_push, optional_text, same_ignoring_case, same_text,
    texts,
};
use crate::utf8::{cut, truncate_utf8};
use vstd::prelude::*;
use vstd::string::*;

verus! {

pub const COMPARE_DEFAULT_MAX_EVENTS: usize = 20_000;

pub const COMPARE_MAX_EVENTS: usize = 50_000;

pub const COMPARE_DEFAULT_MAX_CHANGES: usize = 20;

pub const COMPARE_MAX_CHANGES: usize = 50;

pub const MAX_COMPARE_WARNING_BYTES: usize = 8_192;

/// A request to compare two captures.
#[derive(Debug)]
pub struct CompareCapturesArgs {
    /// The baseline.
    pub capture_a: String,
    pub capture_b: String,
    pub include_counters: Option<bool>,
    /// How many events of each capture are compared.
    pub max_events: Option<usize>,
    /// How many changed kinds of events are returned.
    pub max_changes: Option<usize>,
}

/// The bounds of a comparison: how many events of each capture are compared, and how many
/// changes are returned.
pub fn compare_limits(args: &CompareCapturesArgs) -> (r: Result<(usize, usize), Failure>)
    ensures
        ({
            let events = match args.max_events {
                Some(n) => n,
                None => COMPARE_DEFAULT_MAX_EVENTS,
            };
            let changes = match args.max_changes {
                Some(n) => n,
                None => COMPARE_DEFAULT_MAX_CHANGES,
            };
            if !(1 <= events <= COMPARE_MAX_EVENTS) {
                r is Err && r->Err_0.message@ == "max_events must be between 1 and 50000"@
            } else if !(1 <= changes <= COMPARE_MAX_CHANGES) {
                r is Err && r->Err_0.message@ == "max_changes must be between 1 and 50"@
            } else {
                r == Ok::<(usize, usize), Failure>((events, changes))
            }
        }),
{
    let events: usize = match args.max_events {
        Some(n) => n,
        None => COMPARE_DEFAULT_MAX_EVENTS,
    };
    if events < 1 || events > COMPARE_MAX_EVENTS {
        return Err(Failure::of("max_events must be between 1 and 50000"));
    }
    let changes: usize = match args.max_changes {
        Some(n) => n,
        None => COMPARE_DEFAULT_MAX_CHANGES,
    };
    if changes < 1 || changes > COMPARE_MAX_CHANGES {
        return Err(Failure::of("max_changes must be between 1 and 50"));
    }
    Ok((events, changes))
}

/// Refuses to compare a capture with itself.
pub fn require_distinct_captures(path_a: &str, path_b: &str) -> (r: Result<(), Failure>)
    ensures
        r is Err == (path_a@ == path_b@),
        r matches Err(e) ==> e.message@
            == "capture_a and capture_b must identify different capture files"@,
{
    if same_text(path_a, path_b) {
        return Err(
            Failure::of("capture_a and capture_b must identify different capture files"),
        );
    }
    Ok(())
}

// ---------------------------------------------------------------------------
// Files
// ---------------------------------------------------------------------------

/// One of the two captures.
#[derive(Debug)]
pub struct CaptureSide {
    pub path: String,
    pub size_bytes: u64,
    /// Seconds since the Unix epoch; zero for earlier times.
    pub modified: Option<u64>,
}

pub fn capture_side(path: String, size_bytes: u64, modified: Option<FileTime>) -> (r: CaptureSide)
    ensures
        r.path == path,
        r.size_bytes == size_bytes,
        r.modified == match modified {
            Some(time) => Some(time.seconds_or_zero()),
            None => None,
        },
{
    let modified = match modified {
        Some(time) => Some(seconds_or_zero(time)),
        None => None,
    };
    CaptureSide { path, size_bytes, modified }
}

/// How the sizes of two captures compare.
#[derive(Debug)]
pub struct ComparisonDetail {
    pub size_difference_bytes: i64,
    pub size_difference_percent: String,
    pub size_increased: bool,
    pub note: String,
}

/// `n`, or the nearest 64-bit signed integer.
pub open spec fn clamped(n: int) -> int {
    if n < i64::MIN {
        i64::MIN as int
    } else if n > i64::MAX {
        i64::MAX as int
    } else {
        n
    }
}

/// Compares two sizes. `percent` is the difference in percent of the first, where that is not
/// zero.
pub fn metadata_comparison(size_a: u64, size_b: u64, percent: String) -> (r: ComparisonDetail)
    ensures
        r.size_difference_bytes == clamped(size_b - size_a),
        r.size_difference_percent@ == if size_a == 0 {
            "0.00%"@
        } else {
            percent@
        },
        r.size_increased == (size_b > size_a),
        r.note@
            == "File size is retained as context only; event structure and like-for-like counters are the meaningful comparison signals."@,
{
    let exact: i128 = size_b as i128 - size_a as i128;
    let difference: i64 = if exact < i64::MIN as i128 {
        i64::MIN
    } else if exact > i64::MAX as i128 {
        i64::MAX
    } else {
        exact as i64
    };
    ComparisonDetail {
        size_difference_bytes: difference,
        size_difference_percent: if size_a == 0 {
            "0.00%".to_string()
        } else {
            percent
        },
        size_increased: difference > 0,
        note: "File size is retained as context only; event structure and like-for-like counters are the meaningful comparison signals.".to_string(),
    }
}

// ---------------------------------------------------------------------------
// Event structure
// ---------------------------------------------------------------------------

/// How far two sequences of events agree.
#[derive(Debug)]
pub struct EventSequenceComparison {
    pub compared_positions: usize,
    pub exact_position_matches: usize,
    pub exact_position_match_percent: String,
    pub common_prefix_events: usize,
    /// Only where no events were left out.
    pub common_suffix_events: Option<usize>,
}

/// What part of the captures was compared.
#[derive(Debug, Clone, Copy, PartialEq, Eq, Structural)]
pub enum EventComparisonScope {
    FullCapture,
    Prefix,
}

/// How the event lists of two captures compare.
#[derive(Debug)]
pub struct EventStructureComparison {
    pub scope: EventComparisonScope,
    pub baseline_total_events: usize,
    pub comparison_total_events: usize,
    pub total_event_difference: i64,
    pub baseline_analyzed_events: usize,
    pub comparison_analyzed_events: usize,
    pub truncated: bool,
    pub sequence: EventSequenceComparison,
    pub columns: EventColumnComparison,
    pub changed_event_kinds: usize,
    pub changes_truncated: bool,
    pub top_changes: Vec<EventCountChange>,
}

/// How many positions both lists have, and at how many of them they have the same kind.
pub fn event_matches(a: &ComparisonCsv, b: &ComparisonCsv) -> (r: (usize, usize))
    ensures
        r.0 == least(a.events.len() as nat, b.events.len() as nat),
        r.1 == position_matches(kinds(a.events@), kinds(b.events@), r.0 as nat),
        r.1 <= r.0,
{
    let compared: usize = if a.events.len() < b.events.len() {
        a.events.len()
    } else {
        b.events.len()
    };
    (compared, count_position_matches(&a.events, &b.events, compared))
}

impl EventSequenceComparison {
    /// Whether this is how the kept events of `a` and `b` line up.
    pub open spec fn compares(&self, a: ComparisonCsv, b: ComparisonCsv, percent: Seq<char>) -> bool {
        let x = kinds(a.events@);
        let y = kinds(b.events@);
        let compared = least(x.len(), y.len());
        &&& self.compared_positions == compared
        &&& self.exact_position_matches == position_matches(x, y, compared)
        &&& self.exact_position_match_percent@ == if compared == 0 {
            "0.00%"@
        } else {
            percent
        }
        &&& self.common_prefix_events == common_prefix(x, y)
        &&& match self.common_suffix_events {
            Some(n) => !a.is_partial() && !b.is_partial() && n == common_suffix(
                x,
                y,
                (compared - common_prefix(x, y)) as nat,
            ),
            None => a.is_partial() || b.is_partial(),
        }
    }
}

impl EventStructureComparison {
    /// Whether this compares `a` with `b`, with at most `max_changes` changes.
    pub open spec fn compares(
        &self,
        a: ComparisonCsv,
        b: ComparisonCsv,
        max_changes: nat,
        percent: Seq<char>,
    ) -> bool {
        let partial = a.is_partial() || b.is_partial();
        &&& self.scope == if partial {
            EventComparisonScope::Prefix
        } else {
            EventComparisonScope::FullCapture
        }
        &&& self.truncated == partial
        &&& self.baseline_total_events == a.total_events
        &&& self.comparison_total_events == b.total_events
        &&& self.total_event_difference == b.total_events - a.total_events
        &&& self.baseline_analyzed_events == a.events.len()
        &&& self.comparison_analyzed_events == b.events.len()
        &&& self.sequence.compares(a, b, percent)
        &&& self.columns.compares(texts(a.headers@), texts(b.headers@))
        &&& exists|all: Seq<Change>|
            {
                &&& #[trigger] is_ranking(all, kinds(a.events@), kinds(b.events@))
                &&& self.changed_event_kinds == all.len()
                &&& change_views(self.top_changes@) == all.take(
                    least(all.len(), max_changes) as int,
                )
                &&& self.changes_truncated == (all.len() > max_changes)
            }
    }
}

/// Compares two event lists. `percent` is the share of positions at which they agree, where
/// there are any.
pub fn build_event_structure_comparison(
    a: &ComparisonCsv,
    b: &ComparisonCsv,
    max_changes: usize,
    percent: String,
) -> (r: EventStructureComparison)
    requires
        a.wf(),
        b.wf(),
    ensures
        r.compares(*a, *b, max_changes as nat, percent@),
{
    let truncated = a.events.len() < a.total_events || b.events.len() < b.total_events;
    let (compared, matches) = event_matches(a, b);
    let common_prefix_events: usize = count_common_prefix(&a.events, &b.events);
    let common_suffix_events: Option<usize> = if truncated {
        None
    } else {
        Some(count_common_suffix(&a.events, &b.events, compared - common_prefix_events))
    };
    let mut changes = rank_changes(&a.events, &b.events);
    let ghost all = change_views(changes@);
    let changed_event_kinds: usize = changes.len();
    changes.truncate(max_changes);
    assert(change_views(changes@) =~= all.take(least(all.len(), max_changes as nat) as int));
    let percent = if compared == 0 {
        "0.00%".to_string()
    } else {
        percent
    };
    let r = EventStructureComparison {
        scope: if truncated {
            EventComparisonScope::Prefix
        } else {
            EventComparisonScope::FullCapture
        },
        baseline_total_events: a.total_events,
        comparison_total_events: b.total_events,
        total_event_difference: b.total_events as i64 - a.total_events as i64,
        baseline_analyzed_events: a.events.len(),
        comparison_analyzed_events: b.events.len(),
        truncated,
        sequence: EventSequenceComparison {
            compared_positions: compared,
            exact_position_matches: matches,
            exact_position_match_percent: percent,
            common_prefix_events,
            common_suffix_events,
        },
        columns: compare_columns(&a.headers, &b.headers),
        changed_event_kinds,
        changes_truncated: changed_event_kinds > changes.len(),
        top_changes: changes,
    };
    assert(is_ranking(all, kinds(a.events@), kinds(b.events@)));
    r
}

// ---------------------------------------------------------------------------
// GPU timing
// ---------------------------------------------------------------------------

/// The GPU durations of a capture, added up.
#[derive(Debug)]
pub struct TimingAggregate {
    pub samples: usize,
    pub sum: Double,
    pub mean: Double,
}

/// What is worked out in floating point of the GPU durations of a capture.
#[derive(Debug)]
pub struct TimingSums {
    pub sum: Double,
    pub mean: Double,
}

/// How the GPU durations of two captures compare.
#[derive(Debug)]
pub struct GpuTimingComparison {
    pub column: String,
    pub baseline: TimingAggregate,
    pub comparison: TimingAggregate,
    pub sum_difference_percent: Option<String>,
    pub note: String,
}

/// The bits of the GPU durations, in the order of the events.
pub open spec fn durations(events: Seq<ComparisonEvent>) -> Seq<u64>
    decreases events.len(),
{
    if events.len() == 0 {
        seq![]
    } else {
        match events.last().gpu_duration {
            Some(bits) => durations(events.drop_last()).push(bits),
            None => durations(events.drop_last()),
        }
    }
}

/// The bits of the GPU durations that are to be added up.
pub fn timing_samples(csv: &ComparisonCsv) -> (r: Vec<u64>)
    ensures
        r@ == durations(csv.events@),
{
    let mut r: Vec<u64> = Vec::new();
    let mut i: usize = 0;
    while i < csv.events.len()
        invariant
            i <= csv.events.len(),
            r@ == durations(csv.events@.take(i as int)),
        decreases csv.events.len() - i,
    {
        proof {
            assert(csv.events@.take(i + 1).drop_last() =~= csv.events@.take(i as int));
            assert(csv.events@.take(i + 1).last() == csv.events@[i as int]);
        }
        if let Some(bits) = csv.events[i].gpu_duration {
            r.push(bits);
        }
        i += 1;
    }
    assert(csv.events@.take(i as int) =~= csv.events@);
    r
}

/// The column whose durations of `a` and `b` may be compared: both lists are complete and
/// have the same column of GPU durations.
pub open spec fn timing_column(a: ComparisonCsv, b: ComparisonCsv) -> Option<Seq<char>> {
    if a.is_partial() || b.is_partial() {
        None
    } else {
        match (a.gpu_duration_column, b.gpu_duration_column) {
            (Some(x), Some(y)) => if same_ignoring_case(y@, x@) {
                Some(x@)
            } else {
                None
            },
            _ => None,
        }
    }
}

pub open spec fn timing_note() -> Seq<char> {
    "This is an aggregate of complete event exports using the same recognized GPU duration column. Nested PIX events can overlap or double-count time, so it is a triage signal rather than a frame-time verdict."@
}

impl TimingAggregate {
    /// Whether this is the number of durations among `events`, with what was worked out of them.
    pub open spec fn aggregates(&self, events: Seq<ComparisonEvent>, sums: TimingSums) -> bool {
        &&& self.samples == durations(events).len()
        &&& self.sum == sums.sum
        &&& self.mean == sums.mean
    }
}

/// Whether there are durations among `events`, with a finite sum.
pub open spec fn has_timing(events: Seq<ComparisonEvent>, sums: TimingSums) -> bool {
    durations(events).len() > 0 && is_finite(sums.sum.bits)
}

/// The number of durations of an event list, with what was worked out of them, if there are any
/// and their sum is finite.
fn timing_aggregate(csv: &ComparisonCsv, sums: TimingSums) -> (r: Option<TimingAggregate>)
    ensures
        r is Some == has_timing(csv.events@, sums),
        r matches Some(aggregate) ==> aggregate.aggregates(csv.events@, sums),
{
    let samples: usize = timing_samples(csv).len();
    if samples == 0 || !bits_are_finite(sums.sum.bits) {
        return None;
    }
    Some(TimingAggregate { samples, sum: sums.sum, mean: sums.mean })
}

/// Compares GPU durations, where they are comparable, were found on both sides, and have
/// finite sums. `baseline` and `comparison` are the sums and means of the durations, and
/// `percent` is the difference of the sums in percent of the first, where that is not zero.
pub fn compare_gpu_timing(
    a: &ComparisonCsv,
    b: &ComparisonCsv,
    baseline: TimingSums,
    comparison: TimingSums,
    percent: String,
) -> (r: Option<GpuTimingComparison>)
    requires
        a.wf(),
        b.wf(),
    ensures
        r is Some == (timing_column(*a, *b) is Some && has_timing(a.events@, baseline)
            && has_timing(b.events@, comparison)),
        r matches Some(timing) ==> {
            &&& timing.column@ == timing_column(*a, *b)->0
            &&& timing.baseline.aggregates(a.events@, baseline)
            &&& timing.comparison.aggregates(b.events@, comparison)
            &&& optional_text(timing.sum_difference_percent) == if is_zero(baseline.sum.bits) {
                None
            } else {
                Some(percent@)
            }
            &&& timing.note@ == timing_note()
        },
{
    if a.events.len() != a.total_events || b.events.len() != b.total_events {
        return None;
    }
    let column = match (&a.gpu_duration_column, &b.gpu_duration_column) {
        (Some(x), Some(y)) => if eq_ignoring_case(y, x) {
            x.clone()
        } else {
            return None;
        },
        _ => {
            return None;
        },
    };
    let sum_difference_percent = if baseline.sum.bits == 0 || baseline.sum.bits
        == 0x8000_0000_0000_0000 {
        None
    } else {
        Some(percent)
    };
    match (timing_aggregate(a, baseline), timing_aggregate(b, comparison)) {
        (Some(baseline), Some(comparison)) => Some(
            GpuTimingComparison {
                column,
                baseline,
                comparison,
                sum_difference_percent,
                note: "This is an aggregate of complete event exports using the same recognized GPU duration column. Nested PIX events can overlap or double-count time, so it is a triage signal rather than a frame-time verdict.".to_string(),
            },
        ),
        _ => None,
    }
}

// ---------------------------------------------------------------------------
// The report
// ---------------------------------------------------------------------------

/// What was compared.
#[derive(Debug, Clone, Copy, PartialEq, Eq, Structural)]
pub enum CompareAnalysisMode {
    EventStructure,
    MetadataOnly,
}

/// What a request to compare two captures is answered.
#[derive(Debug)]
pub struct CompareReport {
    pub success: bool,
    pub capture_a: CaptureSide,
    pub capture_b: CaptureSide,
    pub comparison: ComparisonDetail,
    pub analysis_mode: CompareAnalysisMode,
    pub event_structure: Option<EventStructureComparison>,
    pub gpu_timing: Option<GpuTimingComparison>,
    pub warnings: Vec<String>,
    pub suggestion: String,
}

pub open spec fn warning_text(prefix: Seq<char>, error: Seq<char>) -> Seq<char> {
    cut(prefix + ": "@ + error, MAX_COMPARE_WARNING_BYTES as nat)
}

/// A warning about an error, cut to its bound.
pub fn bounded_compare_warning(prefix: &str, error: &str) -> (r: String)
    ensures
        r@ == warning_text(prefix@, error@),
{
    truncate_utf8(&concat3(prefix, ": ", error), MAX_COMPARE_WARNING_BYTES).0
}

/// A warning about an error, where there is one.
pub open spec fn warning_if(prefix: Seq<char>, error: Option<Seq<char>>) -> Seq<Seq<char>> {
    match error {
        Some(text) => seq![warning_text(prefix, text)],
        None => seq![],
    }
}

fn warn_if(warnings: &mut Vec<String>, prefix: &str, error: &Option<String>)
    ensures
        texts(final(warnings)@) == texts(old(warnings)@) + warning_if(
            prefix@,
            optional_text(*error),
        ),
{
    broadcast use lemma_texts_push;

    let ghost before = texts(warnings@);
    if let Some(text) = error {
        warnings.push(bounded_compare_warning(prefix, text));
        assert(texts(warnings@) =~= before + seq![warning_text(prefix@, text@)]);
    } else {
        assert(texts(warnings@) =~= before + seq![]);
    }
}

/// What is warned of when both events are exported again without counters.
pub open spec fn retry_warnings(error_a: Option<Seq<char>>, error_b: Option<Seq<char>>) -> Seq<
    Seq<char>,
> {
    warning_if("Baseline counter export failed"@, error_a) + warning_if(
        "Comparison counter export failed"@,
        error_b,
    ) + seq![
        "Retrying both event exports without counters so structural comparison remains available."@,
    ]
}

/// Decides what follows the exports with counters: nothing more where both succeeded, and
/// otherwise another export of both without counters, with these warnings.
pub fn after_counter_exports(error_a: &Option<String>, error_b: &Option<String>) -> (r: Option<
    Vec<String>,
>)
    ensures
        r is None == (error_a is None && error_b is None),
        r matches Some(warnings) ==> texts(warnings@) == retry_warnings(
            optional_text(*error_a),
            optional_text(*error_b),
        ),
{
    broadcast use lemma_texts_push;

    if error_a.is_none() && error_b.is_none() {
        return None;
    }
    let mut warnings: Vec<String> = Vec::new();
    warn_if(&mut warnings, "Baseline counter export failed", error_a);
    warn_if(&mut warnings, "Comparison counter export failed", error_b);
    warnings.push(
        "Retrying both event exports without counters so structural comparison remains available.".to_string(),
    );
    assert(texts(warnings@) =~= retry_warnings(optional_text(*error_a), optional_text(*error_b)));
    Some(warnings)
}

/// What came of the event exports.
#[derive(Debug)]
pub enum EventExports {
    /// Both lists were exported and compared.
    Compared {
        structure: EventStructureComparison,
        gpu_timing: Option<GpuTimingComparison>,
        /// Whether the lists hold counters.
        counters_available: bool,
    },
    /// At least one list was not exported.
    Failed { error_a: Option<String>, error_b: Option<String> },
}

pub open spec fn partial_warning(max_events: nat) -> Seq<char> {
    "Structural counts and sequence matching are limited to the first "@ + decimal(max_events)
        + " events of each capture; total event counts cover the full bounded CSV exports."@
}

/// What the outcome of the exports is warned of.
pub open spec fn export_warnings(exports: EventExports, include_counters: bool, max_events: nat) -> Seq<
    Seq<char>,
> {
    match exports {
        EventExports::Compared { structure, gpu_timing, counters_available } => (
        if structure.truncated {
            seq![partial_warning(max_events)]
        } else {
            seq![]
        }) + (if include_counters && counters_available && gpu_timing is None {
            seq![
                "Counters were exported, but no timing aggregate is reported: a complete event set and the same recognized numeric GPU Duration/GPU Time column are required."@,
            ]
        } else if include_counters && !counters_available {
            seq![
                "GPU timing comparison is unavailable because counter export failed; structural results come from the counter-free retry."@,
            ]
        } else {
            seq![]
        }),
        EventExports::Failed { error_a, error_b } => warning_if(
            "Baseline event export failed"@,
            optional_text(error_a),
        ) + warning_if("Comparison event export failed"@, optional_text(error_b)),
    }
}

fn warn_of_exports(
    warnings: &mut Vec<String>,
    exports: &EventExports,
    include_counters: bool,
    max_events: usize,
)
    ensures
        texts(final(warnings)@) == texts(old(warnings)@) + export_warnings(
            *exports,
            include_counters,
            max_events as nat,
        ),
{
    broadcast use lemma_texts_push;

    let ghost before = texts(warnings@);
    match exports {
        EventExports::Compared { structure, gpu_timing, counters_available } => {
            if structure.truncated {
                warnings.push(
                    concat3(
                        "Structural counts and sequence matching are limited to the first ",
                        &decimal_text(max_events as u64),
                        " events of each capture; total event counts cover the full bounded CSV exports.",
                    ),
                );
            }
            if include_counters && *counters_available && gpu_timing.is_none() {
                warnings.push(
                    "Counters were exported, but no timing aggregate is reported: a complete event set and the same recognized numeric GPU Duration/GPU Time column are required.".to_string(),
                );
            } else if include_counters && !*counters_available {
                warnings.push(
                    "GPU timing comparison is unavailable because counter export failed; structural results come from the counter-free retry.".to_string(),
                );
            }
        },
        EventExports::Failed { error_a, error_b } => {
            warn_if(warnings, "Baseline event export failed", error_a);
            warn_if(warnings, "Comparison event export failed", error_b);
        },
    }
    assert(texts(warnings@) =~= before + export_warnings(
        *exports,
        include_counters,
        max_events as nat,
    ));
}

/// The structure that was found, if any.
pub open spec fn structure_of(exports: EventExports) -> Option<EventStructureComparison> {
    match exports {
        EventExports::Compared { structure, .. } => Some(structure),
        EventExports::Failed { .. } => None,
    }
}

/// The timing that is reported, if any: only lists with counters have one.
pub open spec fn timing_of(exports: EventExports) -> Option<GpuTimingComparison> {
    match exports {
        EventExports::Compared { gpu_timing, counters_available, .. } => if counters_available {
            gpu_timing
        } else {
            None
        },
        EventExports::Failed { .. } => None,
    }
}

/// Puts the report on a comparison together. Where the exports failed only the files are
/// compared.
pub fn compare_report(
    capture_a: CaptureSide,
    capture_b: CaptureSide,
    comparison: ComparisonDetail,
    exports: EventExports,
    warnings: Vec<String>,
    include_counters: bool,
    max_events: usize,
) -> (r: CompareReport)
    ensures
        r.success,
        r.capture_a == capture_a,
        r.capture_b == capture_b,
        r.comparison == comparison,
        r.event_structure == structure_of(exports),
        r.gpu_timing == timing_of(exports),
        texts(r.warnings@) == texts(warnings@) + export_warnings(
            exports,
            include_counters,
            max_events as nat,
        ),
        r.analysis_mode == if exports is Compared {
            CompareAnalysisMode::EventStructure
        } else {
            CompareAnalysisMode::MetadataOnly
        },
        r.suggestion@ == suggestion_text(exports is Compared),
{
    let mut warnings = warnings;
    warn_of_exports(&mut warnings, &exports, include_counters, max_events);
    match exports {
        EventExports::Compared { structure, gpu_timing, counters_available } => {
            let gpu_timing = if counters_available {
                gpu_timing
            } else {
                None
            };
            CompareReport {
                success: true,
                capture_a,
                capture_b,
                comparison,
                analysis_mode: CompareAnalysisMode::EventStructure,
                event_structure: Some(structure),
                gpu_timing,
                warnings,
                suggestion: "Use top_changes to locate added/removed work. Treat GPU timing aggregates as triage only, then verify the same marker/counter range in PIX.".to_string(),
            }
        },
        EventExports::Failed { .. } => CompareReport {
            success: true,
            capture_a,
            capture_b,
            comparison,
            analysis_mode: CompareAnalysisMode::MetadataOnly,
            event_structure: None,
            gpu_timing: None,
            warnings,
            suggestion: "Only metadata could be compared. Enable Windows Developer Mode, verify capture replay compatibility, and retry event export.".to_string(),
        },
    }
}

/// What is worked out in floating point for a comparison: shares as text, sums and means.
#[derive(Debug)]
pub struct ComparisonFigures {
    /// The share of positions at which both lists have the same kind of event.
    pub match_percent: String,
    pub baseline: TimingSums,
    pub comparison: TimingSums,
    /// The difference of the sums in percent of the first.
    pub sum_percent: String,
}

/// Whether the durations of both captures are compared.
pub open spec fn reports_timing(a: ComparisonCsv, b: ComparisonCsv, figures: ComparisonFigures) -> bool {
    timing_column(a, b) is Some && has_timing(a.events@, figures.baseline) && has_timing(
        b.events@,
        figures.comparison,
    )
}

/// What is warned of where both event lists were exported.
pub open spec fn compared_warnings(
    a: ComparisonCsv,
    b: ComparisonCsv,
    figures: ComparisonFigures,
    include_counters: bool,
    counters_available: bool,
    max_events: nat,
) -> Seq<Seq<char>> {
    (if a.is_partial() || b.is_partial() {
        seq![partial_warning(max_events)]
    } else {
        seq![]
    }) + (if include_counters && counters_available && !reports_timing(a, b, figures) {
        seq![
            "Counters were exported, but no timing aggregate is reported: a complete event set and the same recognized numeric GPU Duration/GPU Time column are required."@,
        ]
    } else if include_counters && !counters_available {
        seq![
            "GPU timing comparison is unavailable because counter export failed; structural results come from the counter-free retry."@,
        ]
    } else {
        seq![]
    })
}

/// The error of an export, if it failed.
pub open spec fn export_error(export: Result<ComparisonCsv, String>) -> Option<Seq<char>> {
    match export {
        Ok(_) => None,
        Err(error) => Some(error@),
    }
}

impl CompareReport {
    /// Whether this is a report on the two captures.
    pub open spec fn reports_on(
        &self,
        capture_a: CaptureSide,
        capture_b: CaptureSide,
        comparison: ComparisonDetail,
    ) -> bool {
        &&& self.success
        &&& self.capture_a == capture_a
        &&& self.capture_b == capture_b
        &&& self.comparison == comparison
    }

    /// Whether this compares what came of exporting the event lists of two captures. `before` is
    /// what was warned of before.
    pub open spec fn compares(
        &self,
        events_a: Result<ComparisonCsv, String>,
        events_b: Result<ComparisonCsv, String>,
        figures: ComparisonFigures,
        before: Seq<Seq<char>>,
        include_counters: bool,
        counters_available: bool,
        max_events: nat,
        max_changes: nat,
    ) -> bool {
        match (events_a, events_b) {
            (Ok(a), Ok(b)) => {
                &&& self.analysis_mode == CompareAnalysisMode::EventStructure
                &&& self.event_structure is Some
                &&& self.event_structure->0.compares(a, b, max_changes, figures.match_percent@)
                &&& self.gpu_timing is Some == (counters_available && reports_timing(
                    a,
                    b,
                    figures,
                ))
                &&& self.gpu_timing is Some ==> self.gpu_timing->0.column@ == timing_column(
                    a,
                    b,
                )->0 && self.gpu_timing->0.baseline.aggregates(a.events@, figures.baseline)
                    && self.gpu_timing->0.comparison.aggregates(b.events@, figures.comparison)
                    && optional_text(
                    self.gpu_timing->0.sum_difference_percent,
                ) == (if is_zero(figures.baseline.sum.bits) {
                    None
                } else {
                    Some(figures.sum_percent@)
                }) && self.gpu_timing->0.note@ == timing_note()
                &&& texts(self.warnings@) == before + compared_warnings(
                    a,
                    b,
                    figures,
                    include_counters,
                    counters_available,
                    max_events,
                )
                &&& self.suggestion@ == suggestion_text(true)
            },
            _ => {
                &&& self.analysis_mode == CompareAnalysisMode::MetadataOnly
                &&& self.event_structure is None
                &&& self.gpu_timing is None
                &&& texts(self.warnings@) == before + (warning_if(
                    "Baseline event export failed"@,
                    export_error(events_a),
                ) + warning_if("Comparison event export failed"@, export_error(events_b)))
                &&& self.suggestion@ == suggestion_text(false)
            },
        }
    }
}

/// What is suggested after a comparison, by whether events were compared.
pub open spec fn suggestion_text(compared: bool) -> Seq<char> {
    if compared {
        "Use top_changes to locate added/removed work. Treat GPU timing aggregates as triage only, then verify the same marker/counter range in PIX."@
    } else {
        "Only metadata could be compared. Enable Windows Developer Mode, verify capture replay compatibility, and retry event export."@
    }
}

/// Compares two captures, given what came of exporting their event lists. Where both exports
/// succeeded the events are compared; otherwise only the files are, and the errors are warned
/// of.
pub fn finish_comparison(
    capture_a: CaptureSide,
    capture_b: CaptureSide,
    comparison: ComparisonDetail,
    events_a: Result<ComparisonCsv, String>,
    events_b: Result<ComparisonCsv, String>,
    figures: ComparisonFigures,
    warnings: Vec<String>,
    include_counters: bool,
    counters_available: bool,
    max_events: usize,
    max_changes: usize,
) -> (r: CompareReport)
    requires
        events_a matches Ok(a) ==> a.wf(),
        events_b matches Ok(b) ==> b.wf(),
    ensures
        r.reports_on(capture_a, capture_b, comparison),
        r.compares(
            events_a,
            events_b,
            figures,
            texts(warnings@),
            include_counters,
            counters_available,
            max_events as nat,
            max_changes as nat,
        ),
{
    let exports = match (events_a, events_b) {
        (Ok(a), Ok(b)) => {
            let structure = build_event_structure_comparison(
                &a,
                &b,
                max_changes,
                figures.match_percent,
            );
            let gpu_timing = compare_gpu_timing(
                &a,
                &b,
                figures.baseline,
                figures.comparison,
                figures.sum_percent,
            );
            EventExports::Compared { structure, gpu_timing, counters_available }
        },
        (Err(a), Err(b)) => EventExports::Failed { error_a: Some(a), error_b: Some(b) },
        (Err(a), Ok(_)) => EventExports::Failed { error_a: Some(a), error_b: None },
        (Ok(_), Err(b)) => EventExports::Failed { error_a: None, error_b: Some(b) },
    };
    compare_report(
        capture_a,
        capture_b,
        comparison,
        exports,
        warnings,
        include_counters,
        max_events,
    )
}

} // verus!
