//! How many items of a list fit in a byte budget.

use crate::json::{json_array, json_text_len, quoted, quoted_len};
use crate::text::{joined, lemma_texts_push, texts, utf8_len};
use crate::utf8::{cut, is_cut, truncate_utf8, utf8_len_of_ascii, utf8_len_of_concatenation};
use vstd::prelude::*;
use vstd::string::*;

verus! {

/// How many leading items fit: each takes its size, and the first that would take the
/// total beyond `limit` ends the list.
pub open spec fn fitting_count(sizes: Seq<nat>, used: nat, limit: nat) -> nat
    decreases sizes.len(),
{
    if sizes.len() == 0 || used + sizes[0] > limit {
        0
    } else {
        1 + fitting_count(sizes.subrange(1, sizes.len() as int), used + sizes[0], limit)
    }
}

/// The sum of the first `n` sizes.
pub open spec fn total_of(sizes: Seq<nat>, n: nat) -> nat
    decreases n,
{
    if n == 0 {
        0
    } else {
        total_of(sizes, (n - 1) as nat) + sizes[n - 1]
    }
}

proof fn lemma_total_of_shift(sizes: Seq<nat>, n: nat)
    requires
        n < sizes.len(),
    ensures
        total_of(sizes, n + 1) == sizes[0] + total_of(sizes.subrange(1, sizes.len() as int), n),
    decreases n,
{
    let rest = sizes.subrange(1, sizes.len() as int);
    if n > 0 {
        lemma_total_of_shift(sizes, (n - 1) as nat);
        assert(rest[n - 1] == sizes[n as int]);
    } else {
        reveal_with_fuel(total_of, 2);
    }
}

/// What fits keeps within the limit, and one more item would not.
pub proof fn fitting_items_keep_within_the_limit(sizes: Seq<nat>, used: nat, limit: nat)
    requires
        used <= limit,
    ensures
        fitting_count(sizes, used, limit) <= sizes.len(),
        used + total_of(sizes, fitting_count(sizes, used, limit)) <= limit,
        fitting_count(sizes, used, limit) < sizes.len() ==> used + total_of(
            sizes,
            fitting_count(sizes, used, limit) + 1,
        ) > limit,
    decreases sizes.len(),
{
    if sizes.len() > 0 && used + sizes[0] <= limit {
        let rest = sizes.subrange(1, sizes.len() as int);
        fitting_items_keep_within_the_limit(rest, used + sizes[0], limit);
        let n = fitting_count(rest, used + sizes[0], limit);
        lemma_total_of_shift(sizes, n);
        if n < rest.len() {
            lemma_total_of_shift(sizes, n + 1);
        }
    } else {
        reveal_with_fuel(total_of, 2);
    }
}

/// After `done` items that fit, and one that does not or none left, the count is `done`.
pub proof fn lemma_fitting_count_is(sizes: Seq<nat>, used: nat, limit: nat, done: nat)
    requires
        done <= sizes.len(),
        used + total_of(sizes, done) <= limit,
        done < sizes.len() ==> used + total_of(sizes, done) + sizes[done as int] > limit,
    ensures
        fitting_count(sizes, used, limit) == done,
    decreases sizes.len(),
{
    if done > 0 {
        let rest = sizes.subrange(1, sizes.len() as int);
        lemma_total_of_shift(sizes, (done - 1) as nat);
        assert(total_of(sizes, done) == sizes[0] + total_of(rest, (done - 1) as nat));
        if done < sizes.len() {
            assert(rest[done - 1] == sizes[done as int]);
        }
        lemma_fitting_count_is(rest, used + sizes[0], limit, (done - 1) as nat);
    }
}

/// Every text of `items`, cut to `max_bytes`.
pub open spec fn all_cut(items: Seq<Seq<char>>, max_bytes: nat) -> Seq<Seq<char>> {
    items.map_values(|item: Seq<char>| cut(item, max_bytes))
}

/// What each text takes as an element of a JSON array.
pub open spec fn element_sizes(items: Seq<Seq<char>>) -> Seq<nat> {
    items.map_values(|item: Seq<char>| quoted_len(item) + 1)
}

/// How many of `items`, each cut to `max_bytes`, fit as JSON in `limit` bytes.
pub open spec fn kept_count(items: Seq<Seq<char>>, max_bytes: nat, limit: nat) -> nat {
    fitting_count(element_sizes(all_cut(items, max_bytes)), 2, limit)
}

/// The texts that fit, each cut to `max_bytes`.
pub open spec fn kept(items: Seq<Seq<char>>, max_bytes: nat, limit: nat) -> Seq<Seq<char>> {
    all_cut(items, max_bytes).take(kept_count(items, max_bytes, limit) as int)
}

/// Whether one of the texts that fit was cut.
pub open spec fn some_kept_is_cut(items: Seq<Seq<char>>, max_bytes: nat, limit: nat) -> bool {
    exists|i: int|
        0 <= i < kept_count(items, max_bytes, limit) && is_cut(#[trigger] items[i], max_bytes)
}

/// Keeps the leading texts that fit in `limit` bytes of JSON, each cut to `max_bytes`. The
/// second result says whether one of them was cut.
pub fn keep_within(items: &Vec<String>, max_bytes: usize, limit: usize) -> (r: (Vec<String>, bool))
    requires
        2 <= limit,
    ensures
        texts(r.0@) == kept(texts(items@), max_bytes as nat, limit as nat),
        r.1 == some_kept_is_cut(texts(items@), max_bytes as nat, limit as nat),
        kept_count(texts(items@), max_bytes as nat, limit as nat) == r.0.len(),
        r.0.len() <= items.len(),
{
    broadcast use lemma_texts_push;

    let ghost model = texts(items@);
    let ghost shortened = all_cut(model, max_bytes as nat);
    let ghost sizes = element_sizes(shortened);
    let mut retained: Vec<String> = Vec::new();
    let mut used: usize = 2;
    let mut any_cut: bool = false;
    let mut i: usize = 0;
    assert(texts(retained@) =~= shortened.take(0));
    while i < items.len()
        invariant_except_break
            used <= limit,
            used == 2 + total_of(sizes, i as nat),
        invariant
            i <= items.len(),
            2 <= limit,
            model == texts(items@),
            shortened == all_cut(model, max_bytes as nat),
            sizes == element_sizes(shortened),
            texts(retained@) == shortened.take(i as int),
            retained.len() == i,
            any_cut == (exists|k: int| 0 <= k < i && is_cut(#[trigger] model[k], max_bytes as nat)),
        ensures
            2 + total_of(sizes, i as nat) <= limit,
            i < items.len() ==> 2 + total_of(sizes, i as nat) + sizes[i as int] > limit,
        decreases items.len() - i,
    {
        assert(model[i as int] == items@[i as int]@);
        let (line, was_cut) = truncate_utf8(&items[i], max_bytes);
        let size: usize = json_text_len(&line);
        assert(sizes[i as int] == size + 1);
        if size >= limit - used {
            break;
        }
        used = used + (size + 1);
        any_cut = any_cut || was_cut;
        retained.push(line);
        i += 1;
        assert(texts(retained@) =~= shortened.take(i as int));
    }
    proof {
        lemma_fitting_count_is(sizes, 2, limit as nat, i as nat);
    }
    (retained, any_cut)
}

proof fn lemma_joined_len(parts: Seq<Seq<char>>)
    ensures
        utf8_len(joined(parts, ","@)) + (if parts.len() > 0 {
            1int
        } else {
            0int
        }) == total_of(
            parts.map_values(|part: Seq<char>| utf8_len(part) + 1),
            parts.len(),
        ),
    decreases parts.len(),
{
    let sizes = parts.map_values(|part: Seq<char>| utf8_len(part) + 1);
    reveal_strlit(",");
    utf8_len_of_ascii(Seq::<char>::empty());
    utf8_len_of_ascii(","@);
    if parts.len() == 0 {
        assert(joined(parts, ","@) =~= Seq::<char>::empty());
    } else if parts.len() == 1 {
        reveal_with_fuel(total_of, 2);
    } else {
        let head = parts.drop_last();
        lemma_joined_len(head);
        let before = joined(head, ","@);
        utf8_len_of_concatenation(before, ","@);
        utf8_len_of_concatenation(before + ","@, parts.last());
        let some = head.map_values(|part: Seq<char>| utf8_len(part) + 1);
        lemma_total_of_same(some, sizes, head.len());
    }
}

proof fn lemma_total_of_same(a: Seq<nat>, b: Seq<nat>, n: nat)
    requires
        n <= a.len(),
        n <= b.len(),
        forall|k: int| 0 <= k < n ==> a[k] == b[k],
    ensures
        total_of(a, n) == total_of(b, n),
    decreases n,
{
    if n > 0 {
        lemma_total_of_same(a, b, (n - 1) as nat);
    }
}

/// A JSON array of texts takes no more than what its elements are counted for and its brackets.
pub proof fn json_array_len(items: Seq<Seq<char>>)
    ensures
        utf8_len(json_array(items)) <= 2 + total_of(element_sizes(items), items.len()),
{
    let parts = items.map_values(|item: Seq<char>| quoted(item));
    lemma_joined_len(parts);
    reveal_strlit("[");
    reveal_strlit("]");
    utf8_len_of_ascii("["@);
    utf8_len_of_ascii("]"@);
    utf8_len_of_concatenation("["@, joined(parts, ","@));
    utf8_len_of_concatenation("["@ + joined(parts, ","@), "]"@);
    let sizes = parts.map_values(|part: Seq<char>| utf8_len(part) + 1);
    lemma_total_of_same(sizes, element_sizes(items), items.len());
}

/// A list that is kept within a budget takes no more JSON than the budget.
pub proof fn kept_lists_fit_their_budget(items: Seq<Seq<char>>, max_bytes: nat, limit: nat)
    requires
        2 <= limit,
    ensures
        utf8_len(json_array(kept(items, max_bytes, limit))) <= limit,
{
    let shortened = all_cut(items, max_bytes);
    let sizes = element_sizes(shortened);
    let n = kept_count(items, max_bytes, limit);
    fitting_items_keep_within_the_limit(sizes, 2, limit);
    let some = kept(items, max_bytes, limit);
    json_array_len(some);
    lemma_total_of_same(sizes, element_sizes(some), n);
}

} // verus!
