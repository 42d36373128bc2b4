//! Exported events, and how two sequences of them line up.

use crate::tables::MAX_ANALYSIS_CSV_ROWS;
use crate::text::same_text;
use vstd::prelude::*;
use vstd::string::*;

verus! {

/// What makes two events the same kind of event. Identifiers that differ from capture to
/// capture are no part of it.
#[derive(Debug)]
pub struct EventIdentity {
    pub queue_id: String,
    pub name: String,
}

/// The queue and the name of an event.
pub struct Kind {
    pub queue_id: Seq<char>,
    pub name: Seq<char>,
}

impl View for EventIdentity {
    type V = Kind;

    open spec fn view(&self) -> Kind {
        Kind { queue_id: self.queue_id@, name: self.name@ }
    }
}

/// An event of an exported list.
#[derive(Debug)]
pub struct ComparisonEvent {
    pub identity: EventIdentity,
    /// The bits of the GPU duration, where the row has a finite one.
    pub gpu_duration: Option<u64>,
}

/// What is kept of an exported event list.
#[derive(Debug)]
pub struct ComparisonCsv {
    pub headers: Vec<String>,
    pub events: Vec<ComparisonEvent>,
    pub total_events: usize,
    pub gpu_duration_column: Option<String>,
}

/// The kinds of the events, in order.
pub open spec fn kinds(events: Seq<ComparisonEvent>) -> Seq<Kind> {
    events.map_values(|event: ComparisonEvent| event.identity@)
}

impl ComparisonCsv {
    /// At most as many events are kept as were counted, and no more are counted than are read.
    pub open spec fn wf(&self) -> bool {
        self.events.len() <= self.total_events <= MAX_ANALYSIS_CSV_ROWS
    }

    /// Whether events were counted that were not kept.
    pub open spec fn is_partial(&self) -> bool {
        self.events.len() < self.total_events
    }
}

pub(crate) fn same_identity(a: &EventIdentity, b: &EventIdentity) -> (r: bool)
    ensures
        r == (a@ == b@),
{
    same_text(&a.queue_id, &b.queue_id) && same_text(&a.name, &b.name)
}

/// At how many of the first `n` positions both sequences have the same kind.
pub open spec fn position_matches(a: Seq<Kind>, b: Seq<Kind>, n: nat) -> nat
    decreases n,
{
    if n == 0 {
        0
    } else {
        position_matches(a, b, (n - 1) as nat) + (if a[n - 1] == b[n - 1] {
            1nat
        } else {
            0nat
        })
    }
}

/// How long the beginning is that both sequences share.
pub open spec fn common_prefix(a: Seq<Kind>, b: Seq<Kind>) -> nat
    decreases a.len(),
{
    if a.len() == 0 || b.len() == 0 || a[0] != b[0] {
        0
    } else {
        1 + common_prefix(a.subrange(1, a.len() as int), b.subrange(1, b.len() as int))
    }
}

/// How long the end is that both sequences share, up to `limit`.
pub open spec fn common_suffix(a: Seq<Kind>, b: Seq<Kind>, limit: nat) -> nat
    decreases limit,
{
    if limit == 0 || a.len() == 0 || b.len() == 0 || a.last() != b.last() {
        0
    } else {
        1 + common_suffix(a.drop_last(), b.drop_last(), (limit - 1) as nat)
    }
}

/// The shared beginning is shared, and the next kinds differ.
pub proof fn common_prefix_is_the_longest(a: Seq<Kind>, b: Seq<Kind>)
    ensures
        common_prefix(a, b) <= a.len(),
        common_prefix(a, b) <= b.len(),
        a.take(common_prefix(a, b) as int) == b.take(common_prefix(a, b) as int),
        common_prefix(a, b) < a.len() && common_prefix(a, b) < b.len() ==> a[common_prefix(
            a,
            b,
        ) as int] != b[common_prefix(a, b) as int],
    decreases a.len(),
{
    if a.len() > 0 && b.len() > 0 && a[0] == b[0] {
        let x = a.subrange(1, a.len() as int);
        let y = b.subrange(1, b.len() as int);
        common_prefix_is_the_longest(x, y);
        let n = common_prefix(x, y) as int;
        assert(a.take(n + 1) =~= seq![a[0]] + x.take(n));
        assert(b.take(n + 1) =~= seq![b[0]] + y.take(n));
        if n < x.len() && n < y.len() {
            assert(a[n + 1] == x[n]);
            assert(b[n + 1] == y[n]);
        }
    } else {
        assert(a.take(0) =~= b.take(0));
    }
}

/// The shared end is shared and keeps within its limit.
pub proof fn common_suffix_is_shared(a: Seq<Kind>, b: Seq<Kind>, limit: nat)
    ensures
        common_suffix(a, b, limit) <= limit,
        common_suffix(a, b, limit) <= a.len(),
        common_suffix(a, b, limit) <= b.len(),
        a.skip(a.len() - common_suffix(a, b, limit)) == b.skip(
            b.len() - common_suffix(a, b, limit),
        ),
    decreases limit,
{
    if limit > 0 && a.len() > 0 && b.len() > 0 && a.last() == b.last() {
        let x = a.drop_last();
        let y = b.drop_last();
        common_suffix_is_shared(x, y, (limit - 1) as nat);
        let n = common_suffix(x, y, (limit - 1) as nat) as int;
        assert(a.skip(a.len() - (n + 1)) =~= x.skip(x.len() - n).push(a.last()));
        assert(b.skip(b.len() - (n + 1)) =~= y.skip(y.len() - n).push(b.last()));
    } else {
        assert(a.skip(a.len() as int) =~= b.skip(b.len() as int));
    }
}

pub(crate) fn count_position_matches(a: &Vec<ComparisonEvent>, b: &Vec<ComparisonEvent>, n: usize) -> (r: usize)
    requires
        n <= a.len(),
        n <= b.len(),
    ensures
        r == position_matches(kinds(a@), kinds(b@), n as nat),
        r <= n,
{
    let mut i: usize = 0;
    let mut found: usize = 0;
    while i < n
        invariant
            i <= n <= a.len(),
            n <= b.len(),
            found == position_matches(kinds(a@), kinds(b@), i as nat),
            found <= i,
        decreases n - i,
    {
        if same_identity(&a[i].identity, &b[i].identity) {
            found += 1;
        }
        i += 1;
    }
    found
}

pub(crate) fn count_common_prefix(a: &Vec<ComparisonEvent>, b: &Vec<ComparisonEvent>) -> (r: usize)
    ensures
        r == common_prefix(kinds(a@), kinds(b@)),
        r <= a.len(),
        r <= b.len(),
{
    let ghost x = kinds(a@);
    let ghost y = kinds(b@);
    let mut i: usize = 0;
    assert(x.skip(0) =~= x && y.skip(0) =~= y);
    while i < a.len() && i < b.len()
        invariant
            i <= a.len(),
            i <= b.len(),
            x == kinds(a@),
            y == kinds(b@),
            common_prefix(x, y) == i + common_prefix(x.skip(i as int), y.skip(i as int)),
        decreases a.len() - i,
    {
        let ghost p = x.skip(i as int);
        let ghost q = y.skip(i as int);
        assert(p[0] == a@[i as int].identity@ && q[0] == b@[i as int].identity@);
        if !same_identity(&a[i].identity, &b[i].identity) {
            return i;
        }
        assert(p.subrange(1, p.len() as int) =~= x.skip(i + 1));
        assert(q.subrange(1, q.len() as int) =~= y.skip(i + 1));
        i += 1;
    }
    i
}

pub(crate) fn count_common_suffix(a: &Vec<ComparisonEvent>, b: &Vec<ComparisonEvent>, limit: usize) -> (r: usize)
    ensures
        r == common_suffix(kinds(a@), kinds(b@), limit as nat),
{
    let ghost x = kinds(a@);
    let ghost y = kinds(b@);
    let mut n: usize = 0;
    assert(x.take(x.len() as int) =~= x && y.take(y.len() as int) =~= y);
    while n < limit && n < a.len() && n < b.len()
        invariant
            n <= limit,
            n <= a.len(),
            n <= b.len(),
            x == kinds(a@),
            y == kinds(b@),
            common_suffix(x, y, limit as nat) == n + common_suffix(
                x.take(x.len() - n),
                y.take(y.len() - n),
                (limit - n) as nat,
            ),
        decreases limit - n,
    {
        let ghost p = x.take(x.len() - n);
        let ghost q = y.take(y.len() - n);
        let i: usize = a.len() - 1 - n;
        let j: usize = b.len() - 1 - n;
        assert(p.last() == a@[i as int].identity@ && q.last() == b@[j as int].identity@);
        if !same_identity(&a[i].identity, &b[j].identity) {
            return n;
        }
        assert(p.drop_last() =~= x.take(x.len() - (n + 1)));
        assert(q.drop_last() =~= y.take(y.len() - (n + 1)));
        n += 1;
    }
    n
}

/// An event list agrees with itself from beginning to end.
pub proof fn a_list_agrees_with_itself(a: Seq<Kind>)
    ensures
        common_prefix(a, a) == a.len(),
        position_matches(a, a, a.len()) == a.len(),
    decreases a.len(),
{
    if a.len() > 0 {
        a_list_agrees_with_itself(a.subrange(1, a.len() as int));
    }
    lemma_all_positions_match(a, a.len());
}

/// Swapping two sequences changes nothing about where they agree.
pub proof fn swapping_sequences_keeps_what_agrees(a: Seq<Kind>, b: Seq<Kind>, n: nat)
    ensures
        position_matches(a, b, n) == position_matches(b, a, n),
        common_prefix(a, b) == common_prefix(b, a),
        common_suffix(a, b, n) == common_suffix(b, a, n),
{
    lemma_positions_swap(a, b, n);
    lemma_prefix_swaps(a, b);
    lemma_suffix_swaps(a, b, n);
}

proof fn lemma_positions_swap(a: Seq<Kind>, b: Seq<Kind>, n: nat)
    ensures
        position_matches(a, b, n) == position_matches(b, a, n),
    decreases n,
{
    if n > 0 {
        lemma_positions_swap(a, b, (n - 1) as nat);
    }
}

proof fn lemma_prefix_swaps(a: Seq<Kind>, b: Seq<Kind>)
    ensures
        common_prefix(a, b) == common_prefix(b, a),
    decreases a.len(),
{
    if a.len() > 0 && b.len() > 0 && a[0] == b[0] {
        lemma_prefix_swaps(a.subrange(1, a.len() as int), b.subrange(1, b.len() as int));
    }
}

proof fn lemma_suffix_swaps(a: Seq<Kind>, b: Seq<Kind>, limit: nat)
    ensures
        common_suffix(a, b, limit) == common_suffix(b, a, limit),
    decreases limit,
{
    if limit > 0 && a.len() > 0 && b.len() > 0 && a.last() == b.last() {
        lemma_suffix_swaps(a.drop_last(), b.drop_last(), (limit - 1) as nat);
    }
}

proof fn lemma_all_positions_match(a: Seq<Kind>, n: nat)
    ensures
        position_matches(a, a, n) == n,
    decreases n,
{
    if n > 0 {
        lemma_all_positions_match(a, (n - 1) as nat);
    }
}

} // verus!
