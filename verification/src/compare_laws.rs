//! What holds of a comparison of two captures: where their events agree, which kinds changed, and
//! which durations are added up.

use crate::changes::{
    change_views, is_change, is_ranking, kind_less, lists_kind, magnitude, occurrences, Change,
};
use crate::compare::{
    clamped, durations, timing_column, EventSequenceComparison, EventStructureComparison,
};
use crate::events::least;
use crate::order::text_less_is_total;
use crate::sequences::{
    common_prefix, common_prefix_is_the_longest, common_suffix, common_suffix_is_shared, kinds,
    position_matches, ComparisonCsv, ComparisonEvent, Kind,
};
use crate::text::same_ignoring_case;
use vstd::prelude::*;
use vstd::string::*;

verus! {

// ---------------------------------------------------------------------------
// Where two sequences agree
// ---------------------------------------------------------------------------

/// The positions below `n` at which both sequences have the same kind.
pub open spec fn agreeing_positions(a: Seq<Kind>, b: Seq<Kind>, n: nat) -> Seq<int> {
    Seq::new(n, |i: int| i).filter(|i: int| a[i] == b[i])
}

/// The number of matches is the number of positions at which both sequences have the same kind,
/// wherever these positions are.
pub proof fn matches_are_the_agreeing_positions(a: Seq<Kind>, b: Seq<Kind>, n: nat)
    ensures
        position_matches(a, b, n) == agreeing_positions(a, b, n).len(),
    decreases n,
{
    reveal(Seq::filter);
    let same = |i: int| a[i] == b[i];
    let all = Seq::new(n, |i: int| i);
    if n > 0 {
        matches_are_the_agreeing_positions(a, b, (n - 1) as nat);
        assert(all.drop_last() =~= Seq::new((n - 1) as nat, |i: int| i));
        assert(all.last() == n - 1);
    }
}

/// One more pair of kinds is one more match where they are the same and none where they are not,
/// whatever came before. What follows the compared positions does not count.
pub proof fn one_more_pair_matches_or_not(a: Seq<Kind>, b: Seq<Kind>, x: Kind, y: Kind)
    requires
        a.len() == b.len(),
    ensures
        position_matches(a.push(x), b.push(y), a.len() + 1) == position_matches(a, b, a.len()) + (
        if x == y {
            1int
        } else {
            0int
        }),
        position_matches(a.push(x), b.push(y), a.len()) == position_matches(a, b, a.len()),
{
    lemma_matches_of_beginnings(a, b, a.push(x), b.push(y), a.len());
}

proof fn lemma_matches_of_beginnings(
    a: Seq<Kind>,
    b: Seq<Kind>,
    c: Seq<Kind>,
    d: Seq<Kind>,
    n: nat,
)
    requires
        forall|i: int| 0 <= i < n ==> a[i] == c[i] && b[i] == d[i],
    ensures
        position_matches(a, b, n) == position_matches(c, d, n),
    decreases n,
{
    if n > 0 {
        lemma_matches_of_beginnings(a, b, c, d, (n - 1) as nat);
    }
}

/// Two sequences whose positions all agree match everywhere, two that agree nowhere match nowhere,
/// and no two match at more positions than are compared.
pub proof fn matches_are_bounded(a: Seq<Kind>, b: Seq<Kind>, n: nat)
    ensures
        position_matches(a, b, n) <= n,
        (forall|i: int| 0 <= i < n ==> #[trigger] a[i] == b[i]) <==> position_matches(a, b, n) == n,
        (forall|i: int| 0 <= i < n ==> #[trigger] a[i] != b[i]) <==> position_matches(a, b, n) == 0,
    decreases n,
{
    if n > 0 {
        matches_are_bounded(a, b, (n - 1) as nat);
        assert(a[n - 1] == b[n - 1] || a[n - 1] != b[n - 1]);
    }
}

/// The shared beginning is the longest: its length is the number of positions before the first at
/// which the sequences differ, or at which one of them ends.
pub proof fn shared_beginnings_end_at_a_difference(
    shared: Seq<Kind>,
    a: Seq<Kind>,
    b: Seq<Kind>,
)
    requires
        a.len() == 0 || b.len() == 0 || a[0] != b[0],
    ensures
        common_prefix(shared + a, shared + b) == shared.len(),
    decreases shared.len(),
{
    let x = shared + a;
    let y = shared + b;
    if shared.len() > 0 {
        let rest = shared.skip(1);
        shared_beginnings_end_at_a_difference(rest, a, b);
        assert(x[0] == y[0]);
        assert(x.subrange(1, x.len() as int) =~= rest + a);
        assert(y.subrange(1, y.len() as int) =~= rest + b);
    } else {
        assert(x =~= a);
        assert(y =~= b);
    }
}

/// The shared end is the longest that the limit allows.
pub proof fn shared_ends_begin_behind_a_difference(
    a: Seq<Kind>,
    b: Seq<Kind>,
    shared: Seq<Kind>,
    limit: nat,
)
    requires
        a.len() == 0 || b.len() == 0 || a[a.len() - 1] != b[b.len() - 1],
    ensures
        common_suffix(a + shared, b + shared, limit) == least(shared.len(), limit),
    decreases shared.len(),
{
    let x = a + shared;
    let y = b + shared;
    if shared.len() > 0 {
        if limit > 0 {
            let rest = shared.drop_last();
            shared_ends_begin_behind_a_difference(a, b, rest, (limit - 1) as nat);
            assert(x.last() == y.last());
            assert(x.drop_last() =~= a + rest);
            assert(y.drop_last() =~= b + rest);
        }
    } else {
        assert(x =~= a);
        assert(y =~= b);
    }
}

/// What a comparison says of two sequences: it compares as many positions as both have, counts
/// those that agree, and neither the shared beginning nor the shared end goes beyond them, nor do
/// they overlap.
pub proof fn compared_sequences_are_described(
    comparison: EventSequenceComparison,
    a: ComparisonCsv,
    b: ComparisonCsv,
    percent: Seq<char>,
)
    requires
        comparison.compares(a, b, percent),
    ensures
        ({
            let x = kinds(a.events@);
            let y = kinds(b.events@);
            let n = if x.len() < y.len() {
                x.len()
            } else {
                y.len()
            };
            &&& comparison.compared_positions == n
            &&& comparison.exact_position_matches == agreeing_positions(x, y, n).len()
            &&& comparison.common_prefix_events <= n
            &&& x.take(comparison.common_prefix_events as int) == y.take(
                comparison.common_prefix_events as int,
            )
            &&& comparison.common_prefix_events <= comparison.exact_position_matches
            &&& comparison.common_suffix_events matches Some(end) ==> {
                &&& comparison.common_prefix_events + end <= n
                &&& x.skip(x.len() - end) == y.skip(y.len() - end)
            }
            &&& comparison.common_suffix_events is Some <==> a.events.len() >= a.total_events
                && b.events.len() >= b.total_events
        }),
{
    let x = kinds(a.events@);
    let y = kinds(b.events@);
    let n = least(x.len(), y.len());
    matches_are_the_agreeing_positions(x, y, n);
    common_prefix_is_the_longest(x, y);
    let p = common_prefix(x, y);
    common_suffix_is_shared(x, y, (n - p) as nat);
    lemma_prefix_matches(x, y, n, p);
}

proof fn lemma_prefix_matches(x: Seq<Kind>, y: Seq<Kind>, n: nat, p: nat)
    requires
        p <= n <= x.len(),
        n <= y.len(),
        x.take(p as int) == y.take(p as int),
    ensures
        position_matches(x, y, n) >= p,
    decreases n,
{
    if n > p {
        lemma_prefix_matches(x, y, (n - 1) as nat, p);
    } else {
        assert forall|i: int| 0 <= i < n implies #[trigger] x[i] == y[i] by {
            assert(x.take(p as int)[i] == x[i] && y.take(p as int)[i] == y[i]);
        }
        matches_are_bounded(x, y, n);
    }
}

// ---------------------------------------------------------------------------
// Changes
// ---------------------------------------------------------------------------

/// How many of the events are of a kind.
pub open spec fn times_in(events: Seq<Kind>, kind: Kind) -> nat {
    events.filter(|event: Kind| event == kind).len()
}

/// A kind occurs as often as it stands in the list, wherever it stands.
pub proof fn occurrences_are_counted(events: Seq<Kind>, more: Seq<Kind>, kind: Kind)
    ensures
        occurrences(events, kind) == times_in(events, kind),
        occurrences(events + more, kind) == occurrences(events, kind) + occurrences(more, kind),
        occurrences(seq![kind], kind) == 1,
    decreases events.len() + more.len(),
{
    reveal(Seq::filter);
    assert(occurrences(Seq::<Kind>::empty(), kind) == 0);
    assert(seq![kind].drop_last() =~= Seq::<Kind>::empty());
    if events.len() > 0 {
        occurrences_are_counted(events.drop_last(), Seq::empty(), kind);
    }
    if more.len() > 0 {
        occurrences_are_counted(events, more.drop_last(), kind);
        assert((events + more).drop_last() =~= events + more.drop_last());
        assert((events + more).last() == more.last());
    } else {
        assert(events + more =~= events);
    }
}

/// The changes of a comparison are the kinds that do not occur equally often, each with how often it
/// occurs on either side: every one of them is counted, and the first of the largest differences are
/// returned, up to the number that was asked for.
pub proof fn changes_are_the_kinds_that_differ(
    comparison: EventStructureComparison,
    a: ComparisonCsv,
    b: ComparisonCsv,
    max_changes: nat,
    percent: Seq<char>,
    i: int,
    j: int,
)
    requires
        comparison.compares(a, b, max_changes, percent),
        0 <= i < comparison.top_changes.len(),
        0 <= j < comparison.top_changes.len(),
    ensures
        ({
            let x = kinds(a.events@);
            let y = kinds(b.events@);
            let change = comparison.top_changes@[i]@;
            let other = comparison.top_changes@[j]@;
            &&& change.baseline == times_in(x, change.kind)
            &&& change.comparison == times_in(y, change.kind)
            &&& change.difference == times_in(y, change.kind) - times_in(x, change.kind)
            &&& change.difference != 0
            &&& i < j ==> magnitude(change.difference) >= magnitude(other.difference)
                && change.kind != other.kind
            &&& i < j && magnitude(change.difference) == magnitude(other.difference) ==> kind_less(
                change.kind,
                other.kind,
            )
            &&& comparison.top_changes.len() <= max_changes
            &&& comparison.top_changes.len() <= comparison.changed_event_kinds
            &&& !comparison.changes_truncated ==> comparison.top_changes.len()
                == comparison.changed_event_kinds
        }),
{
    let x = kinds(a.events@);
    let y = kinds(b.events@);
    let all = choose|all: Seq<Change>|
        {
            &&& #[trigger] is_ranking(all, x, y)
            &&& comparison.changed_event_kinds == all.len()
            &&& change_views(comparison.top_changes@) == all.take(
                least(all.len(), max_changes) as int,
            )
            &&& comparison.changes_truncated == (all.len() > max_changes)
        };
    let views = change_views(comparison.top_changes@);
    assert(views.len() == comparison.top_changes.len());
    assert(views.len() == least(all.len(), max_changes));
    assert(views[i] == comparison.top_changes@[i]@ && views[i] == all[i]);
    assert(views[j] == comparison.top_changes@[j]@ && views[j] == all[j]);
    assert(is_change(all[i], x, y));
    occurrences_are_counted(x, Seq::empty(), all[i].kind);
    occurrences_are_counted(y, Seq::empty(), all[i].kind);
    if i < j {
        assert(crate::changes::ranks_before(all[i], all[j]));
        crate::changes::lemma_ranks_before_is_total(all[i], all[j]);
        if all[i].kind == all[j].kind {
            assert(is_change(all[j], x, y));
            text_less_is_total(all[i].kind.queue_id, all[j].kind.queue_id);
            text_less_is_total(all[i].kind.name, all[j].kind.name);
        }
    }
}

/// Where no change was left out, every kind that does not occur equally often is among them.
pub proof fn every_difference_is_a_change(
    comparison: EventStructureComparison,
    a: ComparisonCsv,
    b: ComparisonCsv,
    max_changes: nat,
    percent: Seq<char>,
    kind: Kind,
)
    requires
        comparison.compares(a, b, max_changes, percent),
        !comparison.changes_truncated,
        times_in(kinds(a.events@), kind) != times_in(kinds(b.events@), kind),
    ensures
        exists|i: int|
            0 <= i < comparison.top_changes.len() && (#[trigger] comparison.top_changes@[i])@.kind
                == kind,
{
    let x = kinds(a.events@);
    let y = kinds(b.events@);
    let all = choose|all: Seq<Change>|
        {
            &&& #[trigger] is_ranking(all, x, y)
            &&& comparison.changed_event_kinds == all.len()
            &&& change_views(comparison.top_changes@) == all.take(
                least(all.len(), max_changes) as int,
            )
            &&& comparison.changes_truncated == (all.len() > max_changes)
        };
    occurrences_are_counted(x, Seq::empty(), kind);
    occurrences_are_counted(y, Seq::empty(), kind);
    assert(lists_kind(all, kind));
    let i = choose|i: int| 0 <= i < all.len() && (#[trigger] all[i]).kind == kind;
    let views = change_views(comparison.top_changes@);
    assert(views.len() == comparison.top_changes.len());
    assert(views.len() == all.len());
    assert(views[i] == all[i]);
    assert(comparison.top_changes@[i]@.kind == kind);
}

/// The totals of a comparison are those of the exports, and it says that it covers a part only
/// where events were left out of one of them.
pub proof fn compared_totals_are_those_of_the_exports(
    comparison: EventStructureComparison,
    a: ComparisonCsv,
    b: ComparisonCsv,
    max_changes: nat,
    percent: Seq<char>,
)
    requires
        comparison.compares(a, b, max_changes, percent),
        a.wf(),
        b.wf(),
    ensures
        comparison.baseline_total_events == a.total_events,
        comparison.comparison_total_events == b.total_events,
        comparison.total_event_difference == b.total_events as int - a.total_events as int,
        comparison.baseline_analyzed_events == a.events.len(),
        comparison.comparison_analyzed_events == b.events.len(),
        comparison.truncated <==> a.events.len() != a.total_events || b.events.len()
            != b.total_events,
        comparison.sequence.compares(a, b, percent),
{
}

// ---------------------------------------------------------------------------
// Timing
// ---------------------------------------------------------------------------

/// The durations that are added up are those of the events that have one, in their order.
pub proof fn durations_are_those_of_the_events(
    events: Seq<ComparisonEvent>,
    more: Seq<ComparisonEvent>,
)
    ensures
        durations(events) == events.filter(
            |event: ComparisonEvent| event.gpu_duration is Some,
        ).map_values(|event: ComparisonEvent| event.gpu_duration->0),
        durations(events + more) == durations(events) + durations(more),
    decreases events.len() + more.len(),
{
    reveal(Seq::filter);
    let timed = |event: ComparisonEvent| event.gpu_duration is Some;
    let bits = |event: ComparisonEvent| event.gpu_duration->0;
    if events.len() > 0 {
        let head = events.drop_last();
        durations_are_those_of_the_events(head, Seq::empty());
        if timed(events.last()) {
            assert(events.filter(timed).map_values(bits) =~= head.filter(timed).map_values(
                bits,
            ).push(bits(events.last())));
        }
    } else {
        assert(events.filter(timed).map_values(bits) =~= durations(events));
    }
    if more.len() > 0 {
        durations_are_those_of_the_events(events, more.drop_last());
        assert((events + more).drop_last() =~= events + more.drop_last());
        assert((events + more).last() == more.last());
        assert(durations(events + more) =~= durations(events) + durations(more));
    } else {
        assert(events + more =~= events);
        assert(durations(events) + durations(more) =~= durations(events));
    }
}

/// Durations are compared only where every event of both captures was kept and both have a column of
/// durations of the same name, up to case; the first capture's name of it is shown.
pub proof fn timing_is_compared_like_for_like(a: ComparisonCsv, b: ComparisonCsv)
    ensures
        timing_column(a, b) is Some <==> a.events.len() >= a.total_events && b.events.len()
            >= b.total_events && a.gpu_duration_column is Some && b.gpu_duration_column is Some
            && same_ignoring_case(a.gpu_duration_column->0@, b.gpu_duration_column->0@),
        timing_column(a, b) matches Some(column) ==> column == a.gpu_duration_column->0@,
        timing_column(a, b) is Some == timing_column(b, a) is Some,
{
}

/// The difference of two sizes is exact, as far as 64 bits hold it, and changes its sign when the
/// captures are swapped.
pub proof fn size_differences_are_exact(a: u64, b: u64)
    ensures
        i64::MIN <= b - a <= i64::MAX ==> clamped(b - a) == b - a,
        clamped(b - a) > 0 <==> b > a,
        clamped(b - a) < 0 <==> b < a,
        i64::MIN < b - a <= i64::MAX ==> clamped(a - b) == -clamped(b - a),
{
}

} // verus!
