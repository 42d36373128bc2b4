//! Which kinds of events occur more often in one of two captures.

use crate::order::{
    comes_before, in_order, inserted, sort, sorted, sorted_is_an_ordered_rearrangement, text_less,
    text_less_is_total, text_less_is_transitive, Precedence,
};
use crate::sequences::{kinds, same_identity, ComparisonEvent, EventIdentity, Kind};
use crate::tables::MAX_ANALYSIS_CSV_ROWS;
use crate::text::same_text;
use vstd::prelude::*;
use vstd::string::*;

verus! {

/// How often `kind` occurs.
pub open spec fn occurrences(events: Seq<Kind>, kind: Kind) -> nat
    decreases events.len(),
{
    if events.len() == 0 {
        0
    } else {
        occurrences(events.drop_last(), kind) + (if events.last() == kind {
            1nat
        } else {
            0nat
        })
    }
}

/// Whether `a` comes before `b`: by queue, then by name.
pub open spec fn kind_less(a: Kind, b: Kind) -> bool {
    text_less(a.queue_id, b.queue_id) || (a.queue_id == b.queue_id && text_less(a.name, b.name))
}

proof fn lemma_kind_less_is_total(a: Kind, b: Kind)
    ensures
        !(kind_less(a, b) && kind_less(b, a)),
        !kind_less(a, b) && !kind_less(b, a) <==> a == b,
{
    text_less_is_total(a.queue_id, b.queue_id);
    text_less_is_total(a.name, b.name);
}

proof fn lemma_kind_less_is_transitive(a: Kind, b: Kind, c: Kind)
    requires
        kind_less(a, b),
        kind_less(b, c),
    ensures
        kind_less(a, c),
{
    if text_less(a.queue_id, b.queue_id) && text_less(b.queue_id, c.queue_id) {
        text_less_is_transitive(a.queue_id, b.queue_id, c.queue_id);
    }
    if text_less(a.name, b.name) && text_less(b.name, c.name) {
        text_less_is_transitive(a.name, b.name, c.name);
    }
}

fn identity_comes_before(a: &EventIdentity, b: &EventIdentity) -> (r: bool)
    ensures
        r == kind_less(a@, b@),
{
    comes_before(&a.queue_id, &b.queue_id) || (same_text(&a.queue_id, &b.queue_id) && comes_before(
        &a.name,
        &b.name,
    ))
}

/// How often a kind was counted on either side.
struct Tally {
    identity: EventIdentity,
    baseline: usize,
    comparison: usize,
}

/// How often `kind` was counted on the baseline side.
spec fn baseline_total(tallies: Seq<Tally>, kind: Kind) -> nat
    decreases tallies.len(),
{
    if tallies.len() == 0 {
        0
    } else {
        baseline_total(tallies.drop_last(), kind) + (if tallies.last().identity@ == kind {
            tallies.last().baseline as nat
        } else {
            0
        })
    }
}

/// How often `kind` was counted on the comparison side.
spec fn comparison_total(tallies: Seq<Tally>, kind: Kind) -> nat
    decreases tallies.len(),
{
    if tallies.len() == 0 {
        0
    } else {
        comparison_total(tallies.drop_last(), kind) + (if tallies.last().identity@ == kind {
            tallies.last().comparison as nat
        } else {
            0
        })
    }
}

struct ByKind;

impl Precedence for ByKind {
    type Item = Tally;

    closed spec fn leq(a: Tally, b: Tally) -> bool {
        !kind_less(b.identity@, a.identity@)
    }

    proof fn total(a: Tally, b: Tally) {
        lemma_kind_less_is_total(a.identity@, b.identity@);
    }

    proof fn transitive(a: Tally, b: Tally, c: Tally) {
        lemma_kind_less_is_total(a.identity@, b.identity@);
        lemma_kind_less_is_total(b.identity@, c.identity@);
        lemma_kind_less_is_total(a.identity@, c.identity@);
        if kind_less(a.identity@, b.identity@) && kind_less(b.identity@, c.identity@) {
            lemma_kind_less_is_transitive(a.identity@, b.identity@, c.identity@);
        }
    }

    fn may_precede(a: &Tally, b: &Tally) -> (r: bool) {
        !identity_comes_before(&b.identity, &a.identity)
    }
}

proof fn lemma_totals_of_push(s: Seq<Tally>, x: Tally, kind: Kind)
    ensures
        baseline_total(s.push(x), kind) == baseline_total(s, kind) + (if x.identity@ == kind {
            x.baseline as nat
        } else {
            0
        }),
        comparison_total(s.push(x), kind) == comparison_total(s, kind) + (if x.identity@ == kind {
            x.comparison as nat
        } else {
            0
        }),
{
    assert(s.push(x).drop_last() =~= s);
}

proof fn lemma_totals_of_inserted(s: Seq<Tally>, x: Tally, kind: Kind)
    ensures
        baseline_total(inserted::<ByKind>(s, x), kind) == baseline_total(s.push(x), kind),
        comparison_total(inserted::<ByKind>(s, x), kind) == comparison_total(s.push(x), kind),
    decreases s.len(),
{
    if s.len() > 0 && !ByKind::leq(s.last(), x) {
        let head = s.drop_last();
        lemma_totals_of_inserted(head, x, kind);
        lemma_totals_of_push(inserted::<ByKind>(head, x), s.last(), kind);
        lemma_totals_of_push(head, x, kind);
        lemma_totals_of_push(s, x, kind);
    }
}

proof fn lemma_totals_of_sorted(s: Seq<Tally>, kind: Kind)
    ensures
        baseline_total(sorted::<ByKind>(s), kind) == baseline_total(s, kind),
        comparison_total(sorted::<ByKind>(s), kind) == comparison_total(s, kind),
    decreases s.len(),
{
    if s.len() > 0 {
        let head = s.drop_last();
        lemma_totals_of_sorted(head, kind);
        lemma_totals_of_inserted(sorted::<ByKind>(head), s.last(), kind);
        lemma_totals_of_push(sorted::<ByKind>(head), s.last(), kind);
    }
}

/// One tally for every event of both sides.
fn tally_events(a: &Vec<ComparisonEvent>, b: &Vec<ComparisonEvent>) -> (r: Vec<Tally>)
    ensures
        forall|kind: Kind| #[trigger]
            baseline_total(r@, kind) == occurrences(kinds(a@), kind),
        forall|kind: Kind| #[trigger]
            comparison_total(r@, kind) == occurrences(kinds(b@), kind),
        r.len() == a.len() + b.len(),
        forall|i: int|
            0 <= i < r.len() ==> (#[trigger] r@[i]).baseline <= 1 && r@[i].comparison <= 1,
{
    let ghost x = kinds(a@);
    let ghost y = kinds(b@);
    let mut r: Vec<Tally> = Vec::new();
    let mut i: usize = 0;
    assert(x.take(0) =~= seq![] && y.take(0) =~= seq![]);
    while i < a.len()
        invariant
            i <= a.len(),
            x == kinds(a@),
            forall|kind: Kind| #[trigger]
                baseline_total(r@, kind) == occurrences(x.take(i as int), kind),
            forall|kind: Kind| #[trigger] comparison_total(r@, kind) == 0,
            r.len() == i,
            forall|k: int|
                0 <= k < r.len() ==> (#[trigger] r@[k]).baseline <= 1 && r@[k].comparison <= 1,
        decreases a.len() - i,
    {
        let identity = EventIdentity {
            queue_id: a[i].identity.queue_id.clone(),
            name: a[i].identity.name.clone(),
        };
        let ghost before = r@;
        let one = Tally { identity, baseline: 1, comparison: 0 };
        r.push(one);
        proof {
            assert(x.take(i + 1).drop_last() =~= x.take(i as int));
            assert(x.take(i + 1).last() == one.identity@);
            assert forall|kind: Kind| #[trigger] baseline_total(r@, kind) == occurrences(
                x.take(i + 1),
                kind,
            ) by {
                lemma_totals_of_push(before, one, kind);
            }
            assert forall|kind: Kind| #[trigger] comparison_total(r@, kind) == 0 by {
                lemma_totals_of_push(before, one, kind);
            }
        }
        i += 1;
    }
    assert(x.take(i as int) =~= x);
    let mut j: usize = 0;
    while j < b.len()
        invariant
            j <= b.len(),
            y == kinds(b@),
            forall|kind: Kind| #[trigger] baseline_total(r@, kind) == occurrences(x, kind),
            forall|kind: Kind| #[trigger]
                comparison_total(r@, kind) == occurrences(y.take(j as int), kind),
            r.len() == a.len() + j,
            forall|k: int|
                0 <= k < r.len() ==> (#[trigger] r@[k]).baseline <= 1 && r@[k].comparison <= 1,
        decreases b.len() - j,
    {
        let identity = EventIdentity {
            queue_id: b[j].identity.queue_id.clone(),
            name: b[j].identity.name.clone(),
        };
        let ghost before = r@;
        let one = Tally { identity, baseline: 0, comparison: 1 };
        r.push(one);
        proof {
            assert(y.take(j + 1).drop_last() =~= y.take(j as int));
            assert(y.take(j + 1).last() == one.identity@);
            assert forall|kind: Kind| #[trigger] comparison_total(r@, kind) == occurrences(
                y.take(j + 1),
                kind,
            ) by {
                lemma_totals_of_push(before, one, kind);
            }
            assert forall|kind: Kind| #[trigger] baseline_total(r@, kind) == occurrences(
                x,
                kind,
            ) by {
                lemma_totals_of_push(before, one, kind);
            }
        }
        j += 1;
    }
    assert(y.take(j as int) =~= y);
    r
}

/// Whether every kind comes before the next.
spec fn kinds_ascend(s: Seq<Tally>) -> bool {
    forall|i: int, j: int|
        0 <= i < j < s.len() ==> kind_less(
            (#[trigger] s[i]).identity@,
            (#[trigger] s[j]).identity@,
        )
}

/// Where kinds ascend, the totals of a kind are those of its one tally.
proof fn lemma_totals_of_ascending(s: Seq<Tally>, kind: Kind)
    requires
        kinds_ascend(s),
    ensures
        forall|i: int|
            0 <= i < s.len() && (#[trigger] s[i]).identity@ == kind ==> baseline_total(s, kind)
                == s[i].baseline && comparison_total(s, kind) == s[i].comparison,
        (forall|i: int| 0 <= i < s.len() ==> (#[trigger] s[i]).identity@ != kind)
            ==> baseline_total(s, kind) == 0 && comparison_total(s, kind) == 0,
    decreases s.len(),
{
    if s.len() > 0 {
        let head = s.drop_last();
        lemma_totals_of_ascending(head, kind);
        assert forall|i: int| 0 <= i < s.len() && (#[trigger] s[i]).identity@ == kind implies
            baseline_total(s, kind) == s[i].baseline && comparison_total(s, kind)
            == s[i].comparison by {
            if i < head.len() {
                assert(head[i] == s[i]);
                lemma_kind_less_is_total(s[i].identity@, s.last().identity@);
                assert(kind_less(s[i].identity@, s[s.len() - 1].identity@));
            } else {
                assert forall|k: int| 0 <= k < head.len() implies (#[trigger] head[k]).identity@
                    != kind by {
                    assert(head[k] == s[k]);
                    assert(kind_less(s[k].identity@, s[s.len() - 1].identity@));
                    lemma_kind_less_is_total(s[k].identity@, s.last().identity@);
                }
            }
        }
        if forall|i: int| 0 <= i < s.len() ==> (#[trigger] s[i]).identity@ != kind {
            assert forall|k: int| 0 <= k < head.len() implies (#[trigger] head[k]).identity@
                != kind by {
                assert(head[k] == s[k]);
            }
            assert(s[s.len() - 1].identity@ != kind);
        }
    }
}

/// Adds up the tallies of each kind.
fn group_tallies(list: Vec<Tally>) -> (r: Vec<Tally>)
    requires
        in_order::<ByKind>(list@),
        forall|i: int|
            0 <= i < list.len() ==> (#[trigger] list@[i]).baseline <= 1 && list@[i].comparison
                <= 1,
    ensures
        kinds_ascend(r@),
        forall|kind: Kind| #[trigger]
            baseline_total(r@, kind) == baseline_total(list@, kind),
        forall|kind: Kind| #[trigger]
            comparison_total(r@, kind) == comparison_total(list@, kind),
{
    let mut r: Vec<Tally> = Vec::new();
    let mut i: usize = 0;
    assert(list@.take(0) =~= seq![]);
    while i < list.len()
        invariant
            i <= list.len(),
            in_order::<ByKind>(list@),
            forall|k: int|
                0 <= k < list.len() ==> (#[trigger] list@[k]).baseline <= 1 && list@[k].comparison
                    <= 1,
            kinds_ascend(r@),
            r.len() > 0 <==> i > 0,
            i > 0 ==> r@[r.len() - 1].identity@ == list@[i - 1].identity@,
            forall|k: int|
                0 <= k < r.len() ==> (#[trigger] r@[k]).baseline <= i && r@[k].comparison <= i,
            forall|kind: Kind| #[trigger]
                baseline_total(r@, kind) == baseline_total(list@.take(i as int), kind),
            forall|kind: Kind| #[trigger]
                comparison_total(r@, kind) == comparison_total(list@.take(i as int), kind),
        decreases list.len() - i,
    {
        let ghost before = r@;
        let ghost item = list@[i as int];
        let ghost now = list@.take(i + 1);
        assert(now =~= list@.take(i as int).push(item));
        proof {
            if i > 0 {
                assert(ByKind::leq(list@[i - 1], list@[i as int]));
                lemma_kind_less_is_total(list@[i - 1].identity@, item.identity@);
            }
        }
        let again = r.len() > 0 && same_identity(&r[r.len() - 1].identity, &list[i].identity);
        if again {
            if let Some(last) = r.pop() {
                let head_len: usize = r.len();
                let ghost head = r@;
                assert(before =~= head.push(last));
                let updated = Tally {
                    identity: last.identity,
                    baseline: last.baseline + list[i].baseline,
                    comparison: last.comparison + list[i].comparison,
                };
                r.push(updated);
                assert(r@ =~= head.push(updated));
                assert forall|k: int, m: int| 0 <= k < m < r@.len() implies kind_less(
                    (#[trigger] r@[k]).identity@,
                    (#[trigger] r@[m]).identity@,
                ) by {
                    assert(before[k].identity@ == r@[k].identity@);
                    assert(before[m].identity@ == r@[m].identity@);
                }
                assert forall|k: int| 0 <= k < r.len() implies (#[trigger] r@[k]).baseline <= i + 1
                    && r@[k].comparison <= i + 1 by {
                    if k < head_len {
                        assert(r@[k] == before[k]);
                    } else {
                        assert(before[k] == last);
                    }
                }
                assert forall|kind: Kind| #[trigger] baseline_total(r@, kind) == baseline_total(
                    now,
                    kind,
                ) by {
                    assert(baseline_total(before, kind) == baseline_total(
                        list@.take(i as int),
                        kind,
                    ));
                    lemma_totals_of_push(head, last, kind);
                    lemma_totals_of_push(head, updated, kind);
                    lemma_totals_of_push(list@.take(i as int), item, kind);
                }
                assert forall|kind: Kind| #[trigger] comparison_total(r@, kind)
                    == comparison_total(now, kind) by {
                    assert(comparison_total(before, kind) == comparison_total(
                        list@.take(i as int),
                        kind,
                    ));
                    lemma_totals_of_push(head, last, kind);
                    lemma_totals_of_push(head, updated, kind);
                    lemma_totals_of_push(list@.take(i as int), item, kind);
                }
            }
        } else {
            let identity = EventIdentity {
                queue_id: list[i].identity.queue_id.clone(),
                name: list[i].identity.name.clone(),
            };
            let copy = Tally {
                identity,
                baseline: list[i].baseline,
                comparison: list[i].comparison,
            };
            r.push(copy);
            assert forall|k: int, m: int| 0 <= k < m < r@.len() implies kind_less(
                (#[trigger] r@[k]).identity@,
                (#[trigger] r@[m]).identity@,
            ) by {
                assert(k < before.len());
                assert(before[k] == r@[k]);
                if m < before.len() {
                    assert(before[m] == r@[m]);
                } else {
                    let last = before.len() - 1;
                    if k < last {
                        assert(kind_less(before[k].identity@, before[last].identity@));
                        lemma_kind_less_is_transitive(
                            before[k].identity@,
                            before[last].identity@,
                            copy.identity@,
                        );
                    }
                }
            }
            assert forall|kind: Kind| #[trigger] baseline_total(r@, kind) == baseline_total(
                now,
                kind,
            ) by {
                assert(baseline_total(before, kind) == baseline_total(list@.take(i as int), kind));
                lemma_totals_of_push(before, copy, kind);
                lemma_totals_of_push(list@.take(i as int), item, kind);
            }
            assert forall|kind: Kind| #[trigger] comparison_total(r@, kind) == comparison_total(
                now,
                kind,
            ) by {
                assert(comparison_total(before, kind) == comparison_total(
                    list@.take(i as int),
                    kind,
                ));
                lemma_totals_of_push(before, copy, kind);
                lemma_totals_of_push(list@.take(i as int), item, kind);
            }
        }
        i += 1;
    }
    assert(list@.take(i as int) =~= list@);
    r
}

// ---------------------------------------------------------------------------
// Changes
// ---------------------------------------------------------------------------

/// A kind of event that does not occur equally often in both captures.
#[derive(Debug)]
pub struct EventCountChange {
    pub queue_id: String,
    pub event_name: String,
    pub baseline_count: usize,
    pub comparison_count: usize,
    pub difference: i64,
}

/// A kind of event with how often it occurs on either side.
pub struct Change {
    pub kind: Kind,
    pub baseline: nat,
    pub comparison: nat,
    pub difference: int,
}

impl View for EventCountChange {
    type V = Change;

    open spec fn view(&self) -> Change {
        Change {
            kind: Kind { queue_id: self.queue_id@, name: self.event_name@ },
            baseline: self.baseline_count as nat,
            comparison: self.comparison_count as nat,
            difference: self.difference as int,
        }
    }
}

/// Every change, by its contents.
pub open spec fn change_views(list: Seq<EventCountChange>) -> Seq<Change> {
    list.map_values(|change: EventCountChange| change@)
}

pub open spec fn magnitude(difference: int) -> int {
    if difference < 0 {
        -difference
    } else {
        difference
    }
}

/// Whether `x` is listed before `y`: the larger difference first, then by queue and name.
pub open spec fn ranks_before(x: Change, y: Change) -> bool {
    magnitude(x.difference) > magnitude(y.difference) || (magnitude(x.difference) == magnitude(
        y.difference,
    ) && kind_less(x.kind, y.kind))
}

/// Whether the counts of a change are those of its kind, and they differ.
pub open spec fn is_change(change: Change, a: Seq<Kind>, b: Seq<Kind>) -> bool {
    &&& change.baseline == occurrences(a, change.kind)
    &&& change.comparison == occurrences(b, change.kind)
    &&& change.difference == change.comparison - change.baseline
    &&& change.baseline != change.comparison
}

/// Whether `kind` is listed.
pub open spec fn lists_kind(list: Seq<Change>, kind: Kind) -> bool {
    exists|i: int| 0 <= i < list.len() && (#[trigger] list[i]).kind == kind
}

/// Whether `list` holds every kind whose counts differ, once, in the order of listing.
pub open spec fn is_ranking(list: Seq<Change>, a: Seq<Kind>, b: Seq<Kind>) -> bool {
    &&& forall|i: int, j: int|
        0 <= i < j < list.len() ==> ranks_before(#[trigger] list[i], #[trigger] list[j])
    &&& forall|i: int| 0 <= i < list.len() ==> is_change(#[trigger] list[i], a, b)
    &&& forall|kind: Kind| #[trigger]
        occurrences(a, kind) != occurrences(b, kind) ==> lists_kind(list, kind)
}

pub(crate) proof fn lemma_ranks_before_is_total(x: Change, y: Change)
    ensures
        !(ranks_before(x, y) && ranks_before(y, x)),
        x.kind != y.kind ==> ranks_before(x, y) || ranks_before(y, x),
{
    lemma_kind_less_is_total(x.kind, y.kind);
}

/// There is one ranking of the changes between two event lists.
pub proof fn ranking_is_unique(x: Seq<Change>, y: Seq<Change>, a: Seq<Kind>, b: Seq<Kind>)
    requires
        is_ranking(x, a, b),
        is_ranking(y, a, b),
    ensures
        x == y,
{
    assert forall|k: Kind| #[trigger] lists_kind(x, k) == lists_kind(y, k) by {
        if lists_kind(x, k) {
            let i = choose|i: int| 0 <= i < x.len() && (#[trigger] x[i]).kind == k;
            assert(is_change(x[i], a, b));
            assert(occurrences(a, k) != occurrences(b, k));
        }
        if lists_kind(y, k) {
            let i = choose|i: int| 0 <= i < y.len() && (#[trigger] y[i]).kind == k;
            assert(is_change(y[i], a, b));
            assert(occurrences(a, k) != occurrences(b, k));
        }
    }
    lemma_rankings_agree(x, y, a, b);
}

proof fn lemma_rankings_agree(x: Seq<Change>, y: Seq<Change>, a: Seq<Kind>, b: Seq<Kind>)
    requires
        forall|i: int, j: int|
            0 <= i < j < x.len() ==> ranks_before(#[trigger] x[i], #[trigger] x[j]),
        forall|i: int, j: int|
            0 <= i < j < y.len() ==> ranks_before(#[trigger] y[i], #[trigger] y[j]),
        forall|i: int| 0 <= i < x.len() ==> is_change(#[trigger] x[i], a, b),
        forall|i: int| 0 <= i < y.len() ==> is_change(#[trigger] y[i], a, b),
        forall|k: Kind|
            #![trigger lists_kind(x, k)]
            #![trigger lists_kind(y, k)]
            lists_kind(x, k) == lists_kind(y, k),
    ensures
        x == y,
    decreases x.len(),
{
    if x.len() == 0 {
        if y.len() > 0 {
            assert(lists_kind(y, y[0].kind));
            assert(lists_kind(x, y[0].kind));
        }
        assert(x =~= y);
    } else {
        let p = x.last();
        let q = y.last();
        assert(x[x.len() - 1].kind == p.kind);
        assert(lists_kind(x, p.kind));
        assert(lists_kind(y, p.kind));
        let i = choose|i: int| 0 <= i < y.len() && (#[trigger] y[i]).kind == p.kind;
        assert(is_change(x[x.len() - 1], a, b));
        assert(is_change(y[i], a, b));
        assert(y[i] == p);
        assert(y[y.len() - 1].kind == q.kind);
        assert(lists_kind(y, q.kind));
        assert(lists_kind(x, q.kind));
        let j = choose|j: int| 0 <= j < x.len() && (#[trigger] x[j]).kind == q.kind;
        assert(is_change(y[y.len() - 1], a, b));
        assert(is_change(x[j], a, b));
        assert(x[j] == q);
        lemma_ranks_before_is_total(p, q);
        lemma_ranks_before_is_total(p, p);
        lemma_ranks_before_is_total(q, q);
        if i < y.len() - 1 {
            assert(ranks_before(y[i], y[y.len() - 1]));
            if j < x.len() - 1 {
                assert(ranks_before(x[j], x[x.len() - 1]));
            }
            assert(false);
        }
        assert(p == q);
        let u = x.drop_last();
        let v = y.drop_last();
        assert forall|k: Kind|
            #![trigger lists_kind(u, k)]
            #![trigger lists_kind(v, k)]
            lists_kind(u, k) == lists_kind(v, k) by {
            if lists_kind(u, k) {
                let m = choose|m: int| 0 <= m < u.len() && (#[trigger] u[m]).kind == k;
                assert(x[m].kind == k);
                assert(lists_kind(x, k));
                assert(lists_kind(y, k));
                let n = choose|n: int| 0 <= n < y.len() && (#[trigger] y[n]).kind == k;
                assert(ranks_before(x[m], x[x.len() - 1]));
                assert(is_change(x[m], a, b) && is_change(y[n], a, b));
                assert(x[m] == y[n]);
                assert(v[n].kind == k);
            }
            if lists_kind(v, k) {
                let m = choose|m: int| 0 <= m < v.len() && (#[trigger] v[m]).kind == k;
                assert(y[m].kind == k);
                assert(lists_kind(y, k));
                assert(lists_kind(x, k));
                let n = choose|n: int| 0 <= n < x.len() && (#[trigger] x[n]).kind == k;
                assert(ranks_before(y[m], y[y.len() - 1]));
                assert(is_change(y[m], a, b) && is_change(x[n], a, b));
                assert(y[m] == x[n]);
                assert(u[n].kind == k);
            }
        }
        lemma_rankings_agree(u, v, a, b);
        assert(x =~= u.push(p));
        assert(y =~= v.push(q));
    }
}

/// Changes in the order of listing.
pub struct ByRank;

impl Precedence for ByRank {
    type Item = EventCountChange;

    open spec fn leq(a: EventCountChange, b: EventCountChange) -> bool {
        !ranks_before(b@, a@)
    }

    proof fn total(a: EventCountChange, b: EventCountChange) {
        lemma_ranks_before_is_total(a@, b@);
    }

    proof fn transitive(a: EventCountChange, b: EventCountChange, c: EventCountChange) {
        lemma_kind_less_is_total(a@.kind, b@.kind);
        lemma_kind_less_is_total(b@.kind, c@.kind);
        lemma_kind_less_is_total(a@.kind, c@.kind);
        if kind_less(a@.kind, b@.kind) && kind_less(b@.kind, c@.kind) {
            lemma_kind_less_is_transitive(a@.kind, b@.kind, c@.kind);
        }
    }

    fn may_precede(a: &EventCountChange, b: &EventCountChange) -> (r: bool) {
        let x: i128 = if a.difference < 0 {
            -(a.difference as i128)
        } else {
            a.difference as i128
        };
        let y: i128 = if b.difference < 0 {
            -(b.difference as i128)
        } else {
            b.difference as i128
        };
        if x != y {
            return x > y;
        }
        !(comes_before(&b.queue_id, &a.queue_id) || (same_text(&b.queue_id, &a.queue_id)
            && comes_before(&b.event_name, &a.event_name)))
    }
}

/// The kinds whose counts differ, in the order of listing.
pub(crate) fn rank_changes(a: &Vec<ComparisonEvent>, b: &Vec<ComparisonEvent>) -> (r: Vec<EventCountChange>)
    requires
        a.len() <= MAX_ANALYSIS_CSV_ROWS,
        b.len() <= MAX_ANALYSIS_CSV_ROWS,
    ensures
        is_ranking(change_views(r@), kinds(a@), kinds(b@)),
{
    let ghost x = kinds(a@);
    let ghost y = kinds(b@);
    let tallies = tally_events(a, b);
    let ghost loose = tallies@;
    let ordered = sort::<ByKind>(tallies);
    proof {
        sorted_is_an_ordered_rearrangement::<ByKind>(loose);
        assert forall|i: int| 0 <= i < ordered.len() implies (#[trigger] ordered@[i]).baseline <= 1
            && ordered@[i].comparison <= 1 by {
            broadcast use vstd::seq_lib::group_to_multiset_ensures;

            assert(ordered@.contains(ordered@[i]));
            assert(loose.to_multiset().contains(ordered@[i]));
            assert(loose.contains(ordered@[i]));
            let k = choose|k: int| 0 <= k < loose.len() && loose[k] == ordered@[i];
        }
    }
    let groups = group_tallies(ordered);
    proof {
        assert forall|kind: Kind| #[trigger] baseline_total(groups@, kind) == occurrences(
            x,
            kind,
        ) && comparison_total(groups@, kind) == occurrences(y, kind) by {
            lemma_totals_of_sorted(loose, kind);
            assert(baseline_total(loose, kind) == occurrences(x, kind));
            assert(comparison_total(loose, kind) == occurrences(y, kind));
            assert(comparison_total(groups@, kind) == comparison_total(ordered@, kind));
        }
    }
    let mut changes: Vec<EventCountChange> = Vec::new();
    let mut i: usize = 0;
    while i < groups.len()
        invariant
            i <= groups.len(),
            x.len() <= MAX_ANALYSIS_CSV_ROWS,
            y.len() <= MAX_ANALYSIS_CSV_ROWS,
            kinds_ascend(groups@),
            forall|kind: Kind| #[trigger]
                baseline_total(groups@, kind) == occurrences(x, kind) && comparison_total(
                    groups@,
                    kind,
                ) == occurrences(y, kind),
            forall|k: int| 0 <= k < changes.len() ==> is_change((#[trigger] changes@[k])@, x, y),
            forall|k: int|
                0 <= k < changes.len() && i < groups.len() ==> kind_less(
                    (#[trigger] changes@[k])@.kind,
                    groups@[i as int].identity@,
                ),
            forall|k: int, m: int|
                0 <= k < m < changes.len() ==> kind_less(
                    (#[trigger] changes@[k])@.kind,
                    (#[trigger] changes@[m])@.kind,
                ),
            forall|k: int|
                0 <= k < i && (#[trigger] groups@[k]).baseline != groups@[k].comparison
                    ==> lists_kind(change_views(changes@), groups@[k].identity@),
        decreases groups.len() - i,
    {
        let ghost before = changes@;
        let ghost kind = groups@[i as int].identity@;
        proof {
            lemma_totals_of_ascending(groups@, kind);
            assert(baseline_total(groups@, kind) == occurrences(x, kind));
            lemma_occurrences_bound(x, kind);
            lemma_occurrences_bound(y, kind);
        }
        let baseline: usize = groups[i].baseline;
        let comparison: usize = groups[i].comparison;
        if baseline != comparison {
            let change = EventCountChange {
                queue_id: groups[i].identity.queue_id.clone(),
                event_name: groups[i].identity.name.clone(),
                baseline_count: baseline,
                comparison_count: comparison,
                difference: comparison as i64 - baseline as i64,
            };
            assert(change@.kind == kind);
            changes.push(change);
            assert(is_change(change@, x, y));
        }
        proof {
            assert forall|k: int|
                0 <= k < i + 1 && (#[trigger] groups@[k]).baseline
                    != groups@[k].comparison implies lists_kind(
                change_views(changes@),
                groups@[k].identity@,
            ) by {
                let now = change_views(changes@);
                if k < i {
                    let old_list = change_views(before);
                    let m = choose|m: int|
                        0 <= m < old_list.len() && (#[trigger] old_list[m]).kind
                            == groups@[k].identity@;
                    assert(now[m] == old_list[m]);
                    assert(now[m].kind == groups@[k].identity@);
                } else {
                    assert(now[before.len() as int].kind == kind);
                }
            }
            if i + 1 < groups.len() {
                assert(kind_less(kind, groups@[i + 1].identity@));
                assert forall|k: int| 0 <= k < changes.len() implies kind_less(
                    (#[trigger] changes@[k])@.kind,
                    groups@[i + 1].identity@,
                ) by {
                    if k < before.len() {
                        assert(changes@[k] == before[k]);
                        lemma_kind_less_is_transitive(
                            before[k]@.kind,
                            kind,
                            groups@[i + 1].identity@,
                        );
                    }
                }
            }
        }
        i += 1;
    }
    let ghost unranked = changes@;
    let r = sort::<ByRank>(changes);
    proof {
        assert forall|kind: Kind| #[trigger]
            occurrences(x, kind) != occurrences(y, kind) implies lists_kind(
            change_views(unranked),
            kind,
        ) by {
            lemma_totals_of_ascending(groups@, kind);
            assert(baseline_total(groups@, kind) == occurrences(x, kind));
            if forall|k: int| 0 <= k < groups@.len() ==> (#[trigger] groups@[k]).identity@ != kind {
                assert(false);
            }
            let k = choose|k: int|
                0 <= k < groups@.len() && (#[trigger] groups@[k]).identity@ == kind;
            assert(groups@[k].baseline != groups@[k].comparison);
        }
        lemma_ranked(unranked, r@, x, y);
    }
    r
}

proof fn lemma_occurrences_bound(events: Seq<Kind>, kind: Kind)
    ensures
        occurrences(events, kind) <= events.len(),
    decreases events.len(),
{
    if events.len() > 0 {
        lemma_occurrences_bound(events.drop_last(), kind);
    }
}

/// Sorting a complete list of changes without repetitions ranks it.
proof fn lemma_ranked(
    unranked: Seq<EventCountChange>,
    r: Seq<EventCountChange>,
    x: Seq<Kind>,
    y: Seq<Kind>,
)
    requires
        r == sorted::<ByRank>(unranked),
        forall|k: int| 0 <= k < unranked.len() ==> is_change((#[trigger] unranked[k])@, x, y),
        forall|k: int, m: int|
            0 <= k < m < unranked.len() ==> kind_less(
                (#[trigger] unranked[k])@.kind,
                (#[trigger] unranked[m])@.kind,
            ),
        forall|kind: Kind| #[trigger]
            occurrences(x, kind) != occurrences(y, kind) ==> lists_kind(
                change_views(unranked),
                kind,
            ),
    ensures
        is_ranking(change_views(r), x, y),
{
    broadcast use vstd::seq_lib::group_to_multiset_ensures;

    sorted_is_an_ordered_rearrangement::<ByRank>(unranked);
    assert(unranked.no_duplicates()) by {
        assert forall|i: int, j: int| 0 <= i < unranked.len() && 0 <= j < unranked.len() && i
            != j implies unranked[i] != unranked[j] by {
            lemma_kind_less_is_total(unranked[i]@.kind, unranked[j]@.kind);
            if i < j {
                assert(kind_less(unranked[i]@.kind, unranked[j]@.kind));
            } else {
                assert(kind_less(unranked[j]@.kind, unranked[i]@.kind));
            }
        }
    }
    unranked.lemma_multiset_has_no_duplicates();
    r.lemma_multiset_has_no_duplicates_conv();
    let views = change_views(r);
    assert forall|i: int| 0 <= i < r.len() implies unranked.contains(#[trigger] r[i]) by {
        assert(r.contains(r[i]));
        assert(unranked.to_multiset().contains(r[i]));
    }
    assert forall|i: int| 0 <= i < views.len() implies is_change(#[trigger] views[i], x, y) by {
        assert(unranked.contains(r[i]));
        let k = choose|k: int| 0 <= k < unranked.len() && unranked[k] == r[i];
        assert(is_change(unranked[k]@, x, y));
    }
    assert forall|i: int, j: int| 0 <= i < j < views.len() implies ranks_before(
        #[trigger] views[i],
        #[trigger] views[j],
    ) by {
        assert(ByRank::leq(r[i], r[j]));
        assert(unranked.contains(r[i]) && unranked.contains(r[j]));
        let k = choose|k: int| 0 <= k < unranked.len() && unranked[k] == r[i];
        let m = choose|m: int| 0 <= m < unranked.len() && unranked[m] == r[j];
        assert(r[i] != r[j]);
        assert(k != m);
        if k < m {
            assert(kind_less(unranked[k]@.kind, unranked[m]@.kind));
        } else {
            assert(kind_less(unranked[m]@.kind, unranked[k]@.kind));
        }
        lemma_kind_less_is_total(unranked[k]@.kind, unranked[m]@.kind);
        lemma_ranks_before_is_total(r[i]@, r[j]@);
    }
    assert forall|kind: Kind| #[trigger] occurrences(x, kind) != occurrences(y, kind) implies
        lists_kind(views, kind) by {
        assert(lists_kind(change_views(unranked), kind));
        let all = change_views(unranked);
        let k = choose|k: int| 0 <= k < all.len() && (#[trigger] all[k]).kind == kind;
        assert(unranked.contains(unranked[k]));
        assert(r.to_multiset().contains(unranked[k]));
        assert(r.contains(unranked[k]));
        let m = choose|m: int| 0 <= m < r.len() && r[m] == unranked[k];
        assert(views[m].kind == kind);
    }
}

/// Nothing has changed between an event list and itself, nor between two lists with the same
/// events in another order.
pub proof fn equal_counts_are_no_change(list: Seq<Change>, a: Seq<Kind>, b: Seq<Kind>)
    requires
        is_ranking(list, a, b),
        forall|kind: Kind| #[trigger] occurrences(a, kind) == occurrences(b, kind),
    ensures
        list.len() == 0,
{
    if list.len() > 0 {
        assert(is_change(list[0], a, b));
        assert(occurrences(a, list[0].kind) == occurrences(b, list[0].kind));
    }
}

/// Swapping the two captures changes the sign of every difference and the order of nothing.
pub proof fn swapping_captures_negates_differences(
    x: Seq<Change>,
    y: Seq<Change>,
    a: Seq<Kind>,
    b: Seq<Kind>,
)
    requires
        is_ranking(x, a, b),
        is_ranking(y, b, a),
    ensures
        y == x.map_values(
            |change: Change|
                Change {
                    kind: change.kind,
                    baseline: change.comparison,
                    comparison: change.baseline,
                    difference: -change.difference,
                },
        ),
{
    let flip = |change: Change|
        Change {
            kind: change.kind,
            baseline: change.comparison,
            comparison: change.baseline,
            difference: -change.difference,
        };
    let z = x.map_values(flip);
    assert forall|i: int, j: int| 0 <= i < j < z.len() implies ranks_before(
        #[trigger] z[i],
        #[trigger] z[j],
    ) by {
        assert(z[i] == flip(x[i]) && z[j] == flip(x[j]));
        assert(ranks_before(x[i], x[j]));
    }
    assert forall|i: int| 0 <= i < z.len() implies is_change(#[trigger] z[i], b, a) by {
        assert(z[i] == flip(x[i]));
        assert(is_change(x[i], a, b));
    }
    assert forall|kind: Kind| #[trigger] occurrences(b, kind) != occurrences(a, kind) implies
        lists_kind(z, kind) by {
        assert(occurrences(a, kind) != occurrences(b, kind));
        assert(lists_kind(x, kind));
        let i = choose|i: int| 0 <= i < x.len() && (#[trigger] x[i]).kind == kind;
        assert(z[i].kind == kind);
    }
    ranking_is_unique(z, y, b, a);
}

} // verus!
