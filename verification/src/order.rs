//! Orders on values, and sorting by them.

use crate::text::{same_text, texts};
use vstd::prelude::*;
use vstd::std_specs::iter::IteratorSpec;
use vstd::string::*;

verus! {

/// A total preorder on a type.
pub trait Precedence {
    type Item;

    /// Whether `a` may stand before `b`.
    spec fn leq(a: Self::Item, b: Self::Item) -> bool;

    proof fn total(a: Self::Item, b: Self::Item)
        ensures
            Self::leq(a, b) || Self::leq(b, a),
    ;

    proof fn transitive(a: Self::Item, b: Self::Item, c: Self::Item)
        requires
            Self::leq(a, b),
            Self::leq(b, c),
        ensures
            Self::leq(a, c),
    ;

    fn may_precede(a: &Self::Item, b: &Self::Item) -> (r: bool)
        ensures
            r == Self::leq(*a, *b),
    ;
}

/// `s` with `x` put behind the last item that may precede it.
pub open spec fn inserted<P: Precedence>(s: Seq<P::Item>, x: P::Item) -> Seq<P::Item>
    decreases s.len(),
{
    if s.len() == 0 || P::leq(s.last(), x) {
        s.push(x)
    } else {
        inserted::<P>(s.drop_last(), x).push(s.last())
    }
}

/// `items` in order; items that may precede each other keep the order they had.
pub open spec fn sorted<P: Precedence>(items: Seq<P::Item>) -> Seq<P::Item>
    decreases items.len(),
{
    if items.len() == 0 {
        items
    } else {
        inserted::<P>(sorted::<P>(items.drop_last()), items.last())
    }
}

/// Whether every item may precede the items after it.
pub open spec fn in_order<P: Precedence>(s: Seq<P::Item>) -> bool {
    forall|i: int, j: int| 0 <= i < j < s.len() ==> P::leq(#[trigger] s[i], #[trigger] s[j])
}

proof fn lemma_inserted<P: Precedence>(s: Seq<P::Item>, x: P::Item)
    requires
        in_order::<P>(s),
    ensures
        in_order::<P>(inserted::<P>(s, x)),
        inserted::<P>(s, x).to_multiset() =~= s.to_multiset().insert(x),
        inserted::<P>(s, x).len() == s.len() + 1,
    decreases s.len(),
{
    broadcast use vstd::seq_lib::group_to_multiset_ensures;

    let r = inserted::<P>(s, x);
    if s.len() == 0 {
    } else if P::leq(s.last(), x) {
        assert forall|i: int, j: int| 0 <= i < j < r.len() implies P::leq(
            #[trigger] r[i],
            #[trigger] r[j],
        ) by {
            if j == s.len() && i < s.len() - 1 {
                P::transitive(s[i], s.last(), x);
            }
        }
    } else {
        let head = s.drop_last();
        lemma_inserted::<P>(head, x);
        let part = inserted::<P>(head, x);
        P::total(s.last(), x);
        assert(s =~= head.push(s.last()));
        assert(s.to_multiset() =~= head.to_multiset().insert(s.last()));
        assert forall|i: int, j: int| 0 <= i < j < r.len() implies P::leq(
            #[trigger] r[i],
            #[trigger] r[j],
        ) by {
            if j == part.len() {
                assert(part.contains(part[i]));
                assert(part.to_multiset().contains(part[i]));
                if part[i] != x {
                    assert(head.to_multiset().contains(part[i]));
                    assert(head.contains(part[i]));
                    let k = choose|k: int| 0 <= k < head.len() && head[k] == part[i];
                    assert(s[k] == part[i]);
                }
            }
        }
    }
}

/// Sorting puts the items in order and neither drops nor adds one.
pub proof fn sorted_is_an_ordered_rearrangement<P: Precedence>(items: Seq<P::Item>)
    ensures
        in_order::<P>(sorted::<P>(items)),
        sorted::<P>(items).to_multiset() =~= items.to_multiset(),
        sorted::<P>(items).len() == items.len(),
    decreases items.len(),
{
    broadcast use vstd::seq_lib::group_to_multiset_ensures;

    if items.len() > 0 {
        sorted_is_an_ordered_rearrangement::<P>(items.drop_last());
        lemma_inserted::<P>(sorted::<P>(items.drop_last()), items.last());
        assert(items =~= items.drop_last().push(items.last()));
    }
}

/// Two ordered sequences as one; where either of two items may precede the other, the one
/// from `a` does.
pub open spec fn merged<P: Precedence>(a: Seq<P::Item>, b: Seq<P::Item>) -> Seq<P::Item>
    decreases a.len() + b.len(),
{
    if a.len() == 0 {
        b
    } else if b.len() == 0 {
        a
    } else if P::leq(a.last(), b.last()) {
        merged::<P>(a, b.drop_last()).push(b.last())
    } else {
        merged::<P>(a.drop_last(), b).push(a.last())
    }
}

proof fn lemma_merged_last<P: Precedence>(a: Seq<P::Item>, b: Seq<P::Item>)
    requires
        a.len() + b.len() > 0,
    ensures
        merged::<P>(a, b).len() > 0,
        (a.len() > 0 && merged::<P>(a, b).last() == a.last()) || (b.len() > 0 && merged::<P>(
            a,
            b,
        ).last() == b.last()),
{
}

/// Inserting into the second of two merged sequences inserts into what they make up.
proof fn lemma_merge_inserted<P: Precedence>(a: Seq<P::Item>, b: Seq<P::Item>, x: P::Item)
    ensures
        merged::<P>(a, inserted::<P>(b, x)) == inserted::<P>(merged::<P>(a, b), x),
    decreases a.len() + b.len(),
{
    let c = inserted::<P>(b, x);
    let m = merged::<P>(a, b);
    if a.len() == 0 {
    } else if b.len() == 0 {
        assert(c =~= seq![x]);
        assert(c.drop_last() =~= b);
        if !P::leq(a.last(), x) {
            lemma_merge_inserted::<P>(a.drop_last(), b, x);
            assert(merged::<P>(a.drop_last(), b) =~= a.drop_last());
        }
    } else if P::leq(b.last(), x) {
        assert(c.drop_last() =~= b);
        if P::leq(a.last(), x) {
            lemma_merged_last::<P>(a, b);
        } else {
            if P::leq(a.last(), b.last()) {
                P::transitive(a.last(), b.last(), x);
            }
            lemma_merge_inserted::<P>(a.drop_last(), b, x);
            assert(m.drop_last() =~= merged::<P>(a.drop_last(), b));
        }
    } else {
        let head = inserted::<P>(b.drop_last(), x);
        assert(c.drop_last() =~= head);
        if P::leq(a.last(), b.last()) {
            lemma_merge_inserted::<P>(a, b.drop_last(), x);
            assert(m.drop_last() =~= merged::<P>(a, b.drop_last()));
        } else {
            P::total(a.last(), b.last());
            if P::leq(a.last(), x) {
                P::transitive(b.last(), a.last(), x);
            }
            lemma_merge_inserted::<P>(a.drop_last(), b, x);
            assert(m.drop_last() =~= merged::<P>(a.drop_last(), b));
        }
    }
}

/// Merging two sorted parts sorts the whole.
proof fn lemma_merge_sorted<P: Precedence>(x: Seq<P::Item>, y: Seq<P::Item>)
    ensures
        merged::<P>(sorted::<P>(x), sorted::<P>(y)) == sorted::<P>(x + y),
    decreases y.len(),
{
    if y.len() == 0 {
        assert(x + y =~= x);
        assert(sorted::<P>(y) =~= seq![]);
    } else {
        lemma_merge_sorted::<P>(x, y.drop_last());
        assert((x + y).drop_last() =~= x + y.drop_last());
        lemma_merge_inserted::<P>(sorted::<P>(x), sorted::<P>(y.drop_last()), y.last());
    }
}

/// The items in reverse.
fn reversed<T>(items: Vec<T>) -> (r: Vec<T>)
    ensures
        r@ == items@.reverse(),
{
    let ghost all = items@;
    let mut rest = items;
    let mut r: Vec<T> = Vec::new();
    while rest.len() > 0
        invariant
            rest@.len() <= all.len(),
            rest@ == all.take(rest@.len() as int),
            r@ == all.skip(rest@.len() as int).reverse(),
        decreases rest.len(),
    {
        if let Some(x) = rest.pop() {
            r.push(x);
        }
        assert(rest@ =~= all.take(rest@.len() as int));
        assert(r@ =~= all.skip(rest@.len() as int).reverse());
    }
    assert(all.skip(0) =~= all);
    r
}

/// Merges two ordered lists.
fn merge<P: Precedence>(left: Vec<P::Item>, right: Vec<P::Item>) -> (r: Vec<P::Item>)
    ensures
        r@ == merged::<P>(left@, right@),
{
    let ghost all = merged::<P>(left@, right@);
    let mut a = left;
    let mut b = right;
    let mut back: Vec<P::Item> = Vec::new();
    assert(all =~= all + back@.reverse());
    while a.len() > 0 || b.len() > 0
        invariant
            all == merged::<P>(a@, b@) + back@.reverse(),
        decreases a.len() + b.len(),
    {
        let from_right = if a.len() == 0 {
            true
        } else if b.len() == 0 {
            false
        } else {
            P::may_precede(&a[a.len() - 1], &b[b.len() - 1])
        };
        let ghost before = back@;
        let ghost rest = merged::<P>(a@, b@);
        let next = if from_right {
            b.pop()
        } else {
            a.pop()
        };
        if let Some(x) = next {
            back.push(x);
            assert(back@.reverse() =~= seq![x] + before.reverse());
            assert(rest =~= merged::<P>(a@, b@).push(x));
            assert(rest + before.reverse() =~= merged::<P>(a@, b@) + back@.reverse());
        }
    }
    assert(merged::<P>(a@, b@) =~= seq![]);
    assert(all =~= back@.reverse());
    reversed(back)
}

/// Sorts stably.
pub fn sort<P: Precedence>(items: Vec<P::Item>) -> (r: Vec<P::Item>)
    ensures
        r@ == sorted::<P>(items@),
    decreases items.len(),
{
    let ghost all = items@;
    let mut left = items;
    if left.len() < 2 {
        proof {
            if all.len() == 1 {
                let none = all.drop_last();
                assert(none =~= seq![]);
                assert(sorted::<P>(none) == none);
                assert(inserted::<P>(none, all.last()) == none.push(all.last()));
                assert(sorted::<P>(all) =~= all);
            }
        }
        return left;
    }
    let middle: usize = left.len() / 2;
    let right = left.split_off(middle);
    proof {
        assert(left@ + right@ =~= all);
        lemma_merge_sorted::<P>(left@, right@);
    }
    merge::<P>(sort::<P>(left), sort::<P>(right))
}

/// Whether `a` comes before `b`: the order of the first characters that differ, and
/// otherwise the shorter text first.
pub open spec fn text_less(a: Seq<char>, b: Seq<char>) -> bool
    decreases a.len(),
{
    if b.len() == 0 {
        false
    } else if a.len() == 0 {
        true
    } else if a[0] != b[0] {
        a[0] < b[0]
    } else {
        text_less(a.subrange(1, a.len() as int), b.subrange(1, b.len() as int))
    }
}

/// Of two texts at most one comes before the other, and neither only if they are equal.
pub proof fn text_less_is_total(a: Seq<char>, b: Seq<char>)
    ensures
        !(text_less(a, b) && text_less(b, a)),
        !text_less(a, b) && !text_less(b, a) <==> a == b,
    decreases a.len(),
{
    if a.len() > 0 && b.len() > 0 {
        let x = a.subrange(1, a.len() as int);
        let y = b.subrange(1, b.len() as int);
        text_less_is_total(x, y);
        if a[0] == b[0] && x == y {
            assert(a =~= seq![a[0]] + x);
            assert(b =~= seq![b[0]] + y);
        }
        if a == b {
            assert(x == y);
        }
    } else if a.len() == 0 && b.len() == 0 {
        assert(a =~= b);
    }
}

pub proof fn text_less_is_transitive(a: Seq<char>, b: Seq<char>, c: Seq<char>)
    requires
        text_less(a, b),
        text_less(b, c),
    ensures
        text_less(a, c),
    decreases a.len(),
{
    if a.len() > 0 && b.len() > 0 && c.len() > 0 && a[0] == b[0] && b[0] == c[0] {
        text_less_is_transitive(
            a.subrange(1, a.len() as int),
            b.subrange(1, b.len() as int),
            c.subrange(1, c.len() as int),
        );
    }
}

/// "Not after" is transitive too.
pub proof fn text_not_after_is_transitive(a: Seq<char>, b: Seq<char>, c: Seq<char>)
    requires
        !text_less(b, a),
        !text_less(c, b),
    ensures
        !text_less(c, a),
{
    text_less_is_total(a, b);
    text_less_is_total(b, c);
    text_less_is_total(a, c);
    if text_less(a, b) && text_less(b, c) {
        text_less_is_transitive(a, b, c);
    }
}

pub fn comes_before(a: &str, b: &str) -> (r: bool)
    ensures
        r == text_less(a@, b@),
{
    let mut x = a.chars();
    let mut y = b.chars();
    loop
        invariant
            x.obeys_prophetic_iter_laws(),
            y.obeys_prophetic_iter_laws(),
            x.decrease() is Some,
            text_less(a@, b@) == text_less(x.remaining(), y.remaining()),
        decreases x.decrease()->0,
    {
        let ghost p = x.remaining();
        let ghost q = y.remaining();
        let c = x.next();
        let d = y.next();
        match (c, d) {
            (_, None) => {
                return false;
            },
            (None, Some(_)) => {
                return true;
            },
            (Some(c), Some(d)) => {
                if c != d {
                    return c < d;
                }
                assert(p.drop_first() =~= p.subrange(1, p.len() as int));
                assert(q.drop_first() =~= q.subrange(1, q.len() as int));
            },
        }
    }
}

/// Texts in ascending order.
pub struct ByText;

impl Precedence for ByText {
    type Item = String;

    open spec fn leq(a: String, b: String) -> bool {
        !text_less(b@, a@)
    }

    proof fn total(a: String, b: String) {
        text_less_is_total(a@, b@);
    }

    proof fn transitive(a: String, b: String, c: String) {
        text_not_after_is_transitive(a@, b@, c@);
    }

    fn may_precede(a: &String, b: &String) -> (r: bool) {
        !comes_before(b, a)
    }
}

/// The ascending `s` with `x` in its place, once.
pub open spec fn put(s: Seq<Seq<char>>, x: Seq<char>) -> Seq<Seq<char>>
    decreases s.len(),
{
    if s.len() == 0 || text_less(s.last(), x) {
        s.push(x)
    } else if s.last() == x {
        s
    } else {
        put(s.drop_last(), x).push(s.last())
    }
}

/// The distinct texts of `items`, in ascending order.
pub open spec fn distinct_sorted(items: Seq<Seq<char>>) -> Seq<Seq<char>>
    decreases items.len(),
{
    if items.len() == 0 {
        items
    } else {
        put(distinct_sorted(items.drop_last()), items.last())
    }
}

/// Whether every text comes before the next.
pub open spec fn ascending(s: Seq<Seq<char>>) -> bool {
    forall|i: int, j: int| 0 <= i < j < s.len() ==> text_less(#[trigger] s[i], #[trigger] s[j])
}

proof fn lemma_put(s: Seq<Seq<char>>, x: Seq<char>)
    requires
        ascending(s),
    ensures
        ascending(put(s, x)),
        forall|t: Seq<char>|
            #![trigger put(s, x).contains(t)]
            #![trigger s.contains(t)]
            put(s, x).contains(t) <==> s.contains(t) || t == x,
    decreases s.len(),
{
    let r = put(s, x);
    if s.len() == 0 || text_less(s.last(), x) {
        assert forall|i: int, j: int| 0 <= i < j < r.len() implies text_less(
            #[trigger] r[i],
            #[trigger] r[j],
        ) by {
            if j == s.len() && i < s.len() - 1 {
                text_less_is_transitive(s[i], s.last(), x);
            }
        }
        assert forall|t: Seq<char>| r.contains(t) <==> s.contains(t) || t == x by {
            if s.contains(t) {
                let k = choose|k: int| 0 <= k < s.len() && s[k] == t;
                assert(r[k] == t);
            }
            assert(r[s.len() as int] == x);
        }
    } else if s.last() == x {
        assert(s[s.len() - 1] == x);
    } else {
        let head = s.drop_last();
        let part = put(head, x);
        lemma_put(head, x);
        text_less_is_total(s.last(), x);
        assert forall|i: int, j: int| 0 <= i < j < r.len() implies text_less(
            #[trigger] r[i],
            #[trigger] r[j],
        ) by {
            if j == part.len() {
                assert(part.contains(part[i]));
                if part[i] != x {
                    assert(head.contains(part[i]));
                    let k = choose|k: int| 0 <= k < head.len() && head[k] == part[i];
                    assert(s[k] == part[i]);
                }
            } else {
                assert(r[i] == part[i] && r[j] == part[j]);
            }
        }
        assert forall|t: Seq<char>| r.contains(t) <==> s.contains(t) || t == x by {
            if s.contains(t) {
                let k = choose|k: int| 0 <= k < s.len() && s[k] == t;
                if k < head.len() {
                    assert(head[k] == t);
                    assert(part.contains(t));
                    let m = choose|m: int| 0 <= m < part.len() && part[m] == t;
                    assert(r[m] == t);
                } else {
                    assert(r[part.len() as int] == t);
                }
            }
            if t == x {
                assert(part.contains(t));
                let m = choose|m: int| 0 <= m < part.len() && part[m] == t;
                assert(r[m] == t);
            }
            if r.contains(t) {
                let m = choose|m: int| 0 <= m < r.len() && r[m] == t;
                if m < part.len() {
                    assert(part[m] == t);
                    assert(part.contains(t));
                    if t != x {
                        let k = choose|k: int| 0 <= k < head.len() && head[k] == t;
                        assert(s[k] == t);
                    }
                } else {
                    assert(s[s.len() - 1] == t);
                }
            }
        }
    }
}

/// The distinct sorted texts ascend, and they are the texts that were given.
pub proof fn distinct_sorted_has_the_same_texts(items: Seq<Seq<char>>)
    ensures
        ascending(distinct_sorted(items)),
        forall|t: Seq<char>|
            #![trigger distinct_sorted(items).contains(t)]
            #![trigger items.contains(t)]
            distinct_sorted(items).contains(t) <==> items.contains(t),
    decreases items.len(),
{
    if items.len() > 0 {
        let head = items.drop_last();
        distinct_sorted_has_the_same_texts(head);
        lemma_put(distinct_sorted(head), items.last());
        assert forall|t: Seq<char>| distinct_sorted(items).contains(t) <==> items.contains(t) by {
            if items.contains(t) {
                let k = choose|k: int| 0 <= k < items.len() && items[k] == t;
                if k < head.len() {
                    assert(head[k] == t);
                }
            }
            if head.contains(t) {
                let k = choose|k: int| 0 <= k < head.len() && head[k] == t;
                assert(items[k] == t);
            }
            assert(items[items.len() - 1] == items.last());
        }
    }
}

proof fn lemma_put_at(s: Seq<Seq<char>>, x: Seq<char>, at: int)
    requires
        ascending(s),
        0 <= at <= s.len(),
        at > 0 ==> text_less(s[at - 1], x),
        at < s.len() ==> text_less(x, s[at]),
    ensures
        put(s, x) == s.insert(at, x),
    decreases s.len(),
{
    if at < s.len() {
        if at < s.len() - 1 {
            assert(text_less(s[at], s[s.len() - 1]));
            text_less_is_transitive(x, s[at], s.last());
        }
        text_less_is_total(x, s.last());
        lemma_put_at(s.drop_last(), x, at);
    }
    assert(put(s, x) =~= s.insert(at, x));
}

/// Puts `x` in its place among ascending texts, unless it is there already. Says whether it
/// was not.
pub fn put_text(items: &mut Vec<String>, x: String) -> (added: bool)
    requires
        ascending(texts(old(items)@)),
    ensures
        texts(final(items)@) == (if added {
            put(texts(old(items)@), x@)
        } else {
            texts(old(items)@)
        }),
        ascending(texts(final(items)@)),
        added == !texts(old(items)@).contains(x@),
        forall|t: Seq<char>|
            #![trigger texts(final(items)@).contains(t)]
            texts(final(items)@).contains(t) <==> texts(old(items)@).contains(t) || t == x@,
{
    let ghost s = texts(items@);
    let mut low: usize = 0;
    let mut high: usize = items.len();
    while low < high
        invariant
            low <= high <= items.len(),
            s == texts(items@),
            ascending(s),
            items@ == old(items)@,
            forall|k: int| 0 <= k < low ==> text_less(#[trigger] s[k], x@),
            forall|k: int| high <= k < items.len() ==> text_less(x@, #[trigger] s[k]),
        decreases high - low,
    {
        let middle: usize = low + (high - low) / 2;
        assert(s[middle as int] == items@[middle as int]@);
        if same_text(&items[middle], &x) {
            assert(s.contains(x@));
            return false;
        }
        proof {
            text_less_is_total(s[middle as int], x@);
        }
        if comes_before(&items[middle], &x) {
            assert forall|k: int| 0 <= k <= middle implies text_less(#[trigger] s[k], x@) by {
                if k < middle {
                    text_less_is_transitive(s[k], s[middle as int], x@);
                }
            }
            low = middle + 1;
        } else {
            assert forall|k: int| middle <= k < items.len() implies text_less(
                x@,
                #[trigger] s[k],
            ) by {
                if k > middle {
                    text_less_is_transitive(x@, s[middle as int], s[k]);
                }
            }
            high = middle;
        }
    }
    proof {
        lemma_put_at(s, x@, low as int);
        lemma_put(s, x@);
        if s.contains(x@) {
            let k = choose|k: int| 0 <= k < s.len() && s[k] == x@;
            text_less_is_total(x@, x@);
            assert(k < low || low <= k);
        }
    }
    let ghost grown = items@.insert(low as int, x);
    items.insert(low, x);
    assert(texts(grown) =~= s.insert(low as int, x@));
    true
}

/// Ascending texts are determined by which texts they are.
pub proof fn ascending_texts_are_unique(a: Seq<Seq<char>>, b: Seq<Seq<char>>)
    requires
        ascending(a),
        ascending(b),
        forall|t: Seq<char>|
            #![trigger a.contains(t)]
            #![trigger b.contains(t)]
            a.contains(t) <==> b.contains(t),
    ensures
        a == b,
    decreases a.len(),
{
    if a.len() == 0 {
        if b.len() > 0 {
            assert(b.contains(b[0]));
            assert(a.contains(b[0]));
        }
        assert(a =~= b);
    } else {
        assert(a.contains(a[0]));
        assert(b.contains(a[0]));
        assert(b.len() > 0);
        let x = a.last();
        let y = b.last();
        assert(a.contains(x) && b.contains(y));
        assert(b.contains(x) && a.contains(y));
        let i = choose|i: int| 0 <= i < b.len() && b[i] == x;
        let j = choose|j: int| 0 <= j < a.len() && a[j] == y;
        if x != y {
            assert(text_less(b[i], b[b.len() - 1]));
            assert(text_less(a[j], a[a.len() - 1]));
            text_less_is_total(x, y);
        }
        let p = a.drop_last();
        let q = b.drop_last();
        assert forall|t: Seq<char>|
            #![trigger p.contains(t)]
            #![trigger q.contains(t)]
            p.contains(t) <==> q.contains(t) by {
            text_less_is_total(x, x);
            if p.contains(t) {
                let k = choose|k: int| 0 <= k < p.len() && p[k] == t;
                assert(a[k] == t);
                assert(a.contains(t));
                assert(b.contains(t));
                let m = choose|m: int| 0 <= m < b.len() && b[m] == t;
                assert(text_less(a[k], a[a.len() - 1]));
                assert(q[m] == t);
            }
            if q.contains(t) {
                let k = choose|k: int| 0 <= k < q.len() && q[k] == t;
                assert(b[k] == t);
                assert(b.contains(t));
                assert(a.contains(t));
                let m = choose|m: int| 0 <= m < a.len() && a[m] == t;
                assert(text_less(b[k], b[b.len() - 1]));
                assert(p[m] == t);
            }
        }
        ascending_texts_are_unique(p, q);
        assert(a =~= p.push(x));
        assert(b =~= q.push(y));
    }
}

proof fn lemma_sorted_texts(items: Seq<String>)
    ensures
        in_order::<ByText>(sorted::<ByText>(items)),
        forall|t: Seq<char>|
            #![trigger texts(sorted::<ByText>(items)).contains(t)]
            #![trigger texts(items).contains(t)]
            texts(sorted::<ByText>(items)).contains(t) <==> texts(items).contains(t),
{
    broadcast use vstd::seq_lib::group_to_multiset_ensures;

    let s = sorted::<ByText>(items);
    sorted_is_an_ordered_rearrangement::<ByText>(items);
    assert forall|t: Seq<char>|
        #![trigger texts(s).contains(t)]
        #![trigger texts(items).contains(t)]
        texts(s).contains(t) <==> texts(items).contains(t) by {
        if texts(s).contains(t) {
            let k = choose|k: int| 0 <= k < texts(s).len() && texts(s)[k] == t;
            assert(s.contains(s[k]));
            assert(items.to_multiset().contains(s[k]));
            assert(items.contains(s[k]));
            let m = choose|m: int| 0 <= m < items.len() && items[m] == s[k];
            assert(texts(items)[m] == t);
        }
        if texts(items).contains(t) {
            let k = choose|k: int| 0 <= k < texts(items).len() && texts(items)[k] == t;
            assert(items.contains(items[k]));
            assert(s.to_multiset().contains(items[k]));
            assert(s.contains(items[k]));
            let m = choose|m: int| 0 <= m < s.len() && s[m] == items[k];
            assert(texts(s)[m] == t);
        }
    }
}

/// Whether the ascending `items` hold `x`.
pub fn ascending_contains(items: &Vec<String>, x: &str) -> (r: bool)
    requires
        ascending(texts(items@)),
    ensures
        r == texts(items@).contains(x@),
{
    let ghost s = texts(items@);
    let mut low: usize = 0;
    let mut high: usize = items.len();
    while low < high
        invariant
            low <= high <= items.len(),
            s == texts(items@),
            ascending(s),
            forall|k: int| 0 <= k < low ==> #[trigger] s[k] != x@,
            forall|k: int| high <= k < items.len() ==> #[trigger] s[k] != x@,
        decreases high - low,
    {
        let middle: usize = low + (high - low) / 2;
        assert(s[middle as int] == items@[middle as int]@);
        if same_text(&items[middle], x) {
            return true;
        }
        proof {
            text_less_is_total(s[middle as int], x@);
        }
        if comes_before(&items[middle], x) {
            assert forall|k: int| 0 <= k <= middle implies #[trigger] s[k] != x@ by {
                if k < middle {
                    assert(text_less(s[k], s[middle as int]));
                }
            }
            low = middle + 1;
        } else {
            assert forall|k: int| middle <= k < items.len() implies #[trigger] s[k] != x@ by {
                if k > middle {
                    assert(text_less(s[middle as int], s[k]));
                }
            }
            high = middle;
        }
    }
    false
}

/// Sorts texts and drops repetitions.
pub fn sort_distinct(items: Vec<String>) -> (r: Vec<String>)
    ensures
        texts(r@) == distinct_sorted(texts(items@)),
{
    broadcast use crate::text::lemma_texts_push;

    let ghost all = items@;
    let ordered = sort::<ByText>(items);
    proof {
        lemma_sorted_texts(all);
        distinct_sorted_has_the_same_texts(texts(all));
    }
    let mut r: Vec<String> = Vec::new();
    let mut i: usize = 0;
    while i < ordered.len()
        invariant
            i <= ordered.len(),
            in_order::<ByText>(ordered@),
            ascending(texts(r@)),
            i > 0 <==> r.len() > 0,
            i > 0 ==> r@[r.len() - 1]@ == ordered@[i - 1]@,
            forall|t: Seq<char>|
                #![trigger texts(r@).contains(t)]
                #![trigger texts(ordered@).take(i as int).contains(t)]
                texts(r@).contains(t) <==> texts(ordered@).take(i as int).contains(t),
        decreases ordered.len() - i,
    {
        let ghost before = r@;
        let ghost x = ordered@[i as int]@;
        let ghost done = texts(ordered@).take(i as int);
        let ghost now = texts(ordered@).take(i + 1);
        assert(now =~= done.push(x));
        proof {
            if i > 0 {
                assert(ByText::leq(ordered@[i - 1], ordered@[i as int]));
                text_less_is_total(ordered@[i - 1]@, x);
            }
        }
        let repeated = r.len() > 0 && same_text(&r[r.len() - 1], &ordered[i]);
        if !repeated {
            r.push(ordered[i].clone());
            assert(texts(r@) == texts(before).push(x));
            assert forall|p: int, q: int| 0 <= p < q < texts(r@).len() implies text_less(
                #[trigger] texts(r@)[p],
                #[trigger] texts(r@)[q],
            ) by {
                assert(p < before.len() ==> texts(r@)[p] == texts(before)[p]);
                assert(q < before.len() ==> texts(r@)[q] == texts(before)[q]);
                if q == before.len() {
                    let last = before.len() - 1;
                    assert(texts(before)[last] == before[last]@);
                    if p < last {
                        text_less_is_transitive(texts(before)[p], texts(before)[last], x);
                    }
                }
            }
        } else {
            assert(texts(before)[before.len() - 1] == x);
            assert(texts(before).contains(x));
        }
        assert forall|t: Seq<char>|
            #![trigger texts(r@).contains(t)]
            #![trigger now.contains(t)]
            texts(r@).contains(t) <==> now.contains(t) by {
            assert(texts(before).contains(t) <==> done.contains(t));
            if now.contains(t) && !done.contains(t) {
                let k = choose|k: int| 0 <= k < now.len() && now[k] == t;
                if k < done.len() {
                    assert(done[k] == t);
                }
                assert(t == x);
            }
            if done.contains(t) {
                let k = choose|k: int| 0 <= k < done.len() && done[k] == t;
                assert(now[k] == t);
            }
            assert(now[i as int] == x);
            if texts(before).contains(t) {
                let k = choose|k: int| 0 <= k < texts(before).len() && texts(before)[k] == t;
                assert(texts(r@)[k] == t);
            }
            if texts(r@).contains(t) && !texts(before).contains(t) {
                let k = choose|k: int| 0 <= k < texts(r@).len() && texts(r@)[k] == t;
                if k < before.len() {
                    assert(texts(before)[k] == t);
                }
                assert(t == x);
            }
            if t == x && !repeated {
                assert(texts(r@)[before.len() as int] == x);
            }
        }
        i += 1;
    }
    proof {
        assert(texts(ordered@).take(i as int) =~= texts(ordered@));
        ascending_texts_are_unique(texts(r@), distinct_sorted(texts(all)));
    }
    r
}

} // verus!
