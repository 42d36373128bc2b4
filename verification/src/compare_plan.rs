//! A comparison on its way to an answer: which exports are made, and what follows them.

use crate::compare::{
    after_counter_exports, compare_limits, finish_comparison, retry_warnings, CaptureSide,
    CompareCapturesArgs, CompareReport, ComparisonDetail, ComparisonFigures,
    COMPARE_DEFAULT_MAX_CHANGES, COMPARE_DEFAULT_MAX_EVENTS, COMPARE_MAX_CHANGES,
    COMPARE_MAX_EVENTS,
};
use crate::compare_answer::{fit_compare_report, MAX_COMPARE_REPORT_BYTES};
use crate::failure::Failure;
use crate::sequences::ComparisonCsv;
use crate::text::{optional_text, texts, utf8_len};
use vstd::prelude::*;
use vstd::string::*;

verus! {

/// A comparison that may be carried out.
#[derive(Debug)]
pub struct ComparisonPlan {
    include_counters: bool,
    max_events: usize,
    max_changes: usize,
    retried: bool,
    warnings: Vec<String>,
}

impl ComparisonPlan {
    /// Whether counters were asked for.
    pub closed spec fn wants_counters(&self) -> bool {
        self.include_counters
    }

    pub closed spec fn event_limit(&self) -> nat {
        self.max_events as nat
    }

    pub closed spec fn change_limit(&self) -> nat {
        self.max_changes as nat
    }

    /// Whether the exports are made again, after those with counters failed.
    pub closed spec fn is_retry(&self) -> bool {
        self.retried
    }

    /// Whether the exports are made with counters.
    pub open spec fn has_counters(&self) -> bool {
        self.wants_counters() && !self.is_retry()
    }

    /// What was warned of so far.
    pub closed spec fn warned(&self) -> Seq<Seq<char>> {
        texts(self.warnings@)
    }

    /// Accepts a request. Nothing has been run yet.
    pub fn new(args: &CompareCapturesArgs) -> (r: Result<ComparisonPlan, Failure>)
        ensures
            ({
                let events = match args.max_events {
                    Some(n) => n,
                    None => COMPARE_DEFAULT_MAX_EVENTS,
                };
                let changes = match args.max_changes {
                    Some(n) => n,
                    None => COMPARE_DEFAULT_MAX_CHANGES,
                };
                if !(1 <= events <= COMPARE_MAX_EVENTS) {
                    r is Err && r->Err_0.message@ == "max_events must be between 1 and 50000"@
                } else if !(1 <= changes <= COMPARE_MAX_CHANGES) {
                    r is Err && r->Err_0.message@ == "max_changes must be between 1 and 50"@
                } else {
                    &&& r is Ok
                    &&& r->Ok_0.event_limit() == events
                    &&& r->Ok_0.change_limit() == changes
                    &&& r->Ok_0.wants_counters() == (args.include_counters == Some(true))
                    &&& !r->Ok_0.is_retry()
                    &&& r->Ok_0.warned() == Seq::<Seq<char>>::empty()
                }
            }),
    {
        let (max_events, max_changes) = match compare_limits(args) {
            Ok(limits) => limits,
            Err(e) => {
                return Err(e);
            },
        };
        let include_counters = match args.include_counters {
            Some(wanted) => wanted,
            None => false,
        };
        let warnings: Vec<String> = Vec::new();
        assert(texts(warnings@) =~= Seq::<Seq<char>>::empty());
        Ok(ComparisonPlan { include_counters, max_events, max_changes, retried: false, warnings })
    }

    /// How many events of each capture are kept.
    pub fn max_events(&self) -> (r: usize)
        ensures
            r == self.event_limit(),
    {
        self.max_events
    }

    /// Whether the exports are made with counters: only where they were asked for, and not
    /// again.
    pub fn with_counters(&self) -> (r: bool)
        ensures
            r == self.has_counters(),
    {
        self.include_counters && !self.retried
    }

    /// Which counters the exports hold, if any: all of them.
    pub fn counters(&self) -> (r: Option<String>)
        ensures
            optional_text(r) == if self.has_counters() {
                Some("*"@)
            } else {
                None
            },
    {
        if self.with_counters() {
            Some("*".to_string())
        } else {
            None
        }
    }

    /// Decides what follows the exports: where counters were exported and one of the exports
    /// failed, both are made again without counters. The second result says so.
    pub fn after_exports(self, error_a: &Option<String>, error_b: &Option<String>) -> (r: (
        ComparisonPlan,
        bool,
    ))
        ensures
            r.1 == (self.has_counters() && (error_a is Some || error_b is Some)),
            r.0.wants_counters() == self.wants_counters(),
            r.0.event_limit() == self.event_limit(),
            r.0.change_limit() == self.change_limit(),
            r.0.is_retry() == (self.is_retry() || r.1),
            r.0.warned() == if r.1 {
                retry_warnings(optional_text(*error_a), optional_text(*error_b))
            } else {
                self.warned()
            },
    {
        if !self.with_counters() {
            return (self, false);
        }
        match after_counter_exports(error_a, error_b) {
            None => (self, false),
            Some(warnings) => (
                ComparisonPlan {
                    include_counters: self.include_counters,
                    max_events: self.max_events,
                    max_changes: self.max_changes,
                    retried: true,
                    warnings,
                },
                true,
            ),
        }
    }

    /// The answer, given what came of the last exports.
    pub fn finish(
        self,
        capture_a: CaptureSide,
        capture_b: CaptureSide,
        comparison: ComparisonDetail,
        events_a: Result<ComparisonCsv, String>,
        events_b: Result<ComparisonCsv, String>,
        figures: ComparisonFigures,
    ) -> (r: Result<CompareReport, Failure>)
        requires
            events_a matches Ok(a) ==> a.wf(),
            events_b matches Ok(b) ==> b.wf(),
        ensures
            exists|whole: CompareReport|
                {
                    &&& #[trigger] whole.compares(
                        events_a,
                        events_b,
                        figures,
                        self.warned(),
                        self.wants_counters(),
                        self.has_counters(),
                        self.event_limit(),
                        self.change_limit(),
                    )
                    &&& whole.reports_on(capture_a, capture_b, comparison)
                    &&& match whole.fitted_from(whole.whole()) {
                        Some(kept) => r is Ok && whole.is_kept(kept, r->Ok_0),
                        None => r is Err && r->Err_0.message@
                            == "Capture comparison exceeded its 1048576 byte inline response budget"@,
                    }
                },
            r matches Ok(report) ==> utf8_len(report.json()) <= MAX_COMPARE_REPORT_BYTES,
    {
        let ghost plan = self;
        let available = self.with_counters();
        let whole = finish_comparison(
            capture_a,
            capture_b,
            comparison,
            events_a,
            events_b,
            figures,
            self.warnings,
            self.include_counters,
            available,
            self.max_events,
            self.max_changes,
        );
        assert(whole.compares(
            events_a,
            events_b,
            figures,
            plan.warned(),
            plan.wants_counters(),
            plan.has_counters(),
            plan.event_limit(),
            plan.change_limit(),
        ));
        fit_compare_report(whole)
    }
}

} // verus!
