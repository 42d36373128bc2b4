//! What holds of the order of texts and versions, and of the tool that is chosen.

use crate::numbers::number;
use crate::order::{text_less, text_less_is_total};
use crate::text::{is_digit, lower_ascii_char};
use crate::versions::{
    chosen_tool, digit_run, first_tool, is_newer, leading_digits, lemma_digit_run, natural_order,
    natural_order_is_antisymmetric, Candidate, InstalledVersion,
};
use vstd::prelude::*;
use vstd::string::*;

verus! {

/// Of two texts with the same beginning, the one with the smaller character behind it comes first;
/// a text comes before one that goes on where it ends.
pub proof fn texts_are_ordered_by_their_first_difference(
    shared: Seq<char>,
    a: Seq<char>,
    b: Seq<char>,
)
    requires
        b.len() > 0,
        a.len() > 0 ==> a[0] != b[0],
    ensures
        a.len() == 0 ==> text_less(shared + a, shared + b) && !text_less(shared + b, shared + a),
        a.len() > 0 ==> (text_less(shared + a, shared + b) <==> a[0] < b[0]),
    decreases shared.len(),
{
    let x = shared + a;
    let y = shared + b;
    if shared.len() > 0 {
        let rest = shared.skip(1);
        texts_are_ordered_by_their_first_difference(rest, a, b);
        assert(x[0] == y[0]);
        assert(x.subrange(1, x.len() as int) =~= rest + a);
        assert(y.subrange(1, y.len() as int) =~= rest + b);
    } else {
        assert(x =~= a);
        assert(y =~= b);
    }
    text_less_is_total(x, y);
}

proof fn lemma_run(digits: Seq<char>, rest: Seq<char>)
    requires
        forall|i: int| 0 <= i < digits.len() ==> is_digit(#[trigger] digits[i]),
        rest.len() > 0 ==> !is_digit(rest[0]),
    ensures
        digit_run(digits + rest) == digits.len(),
        leading_digits(digits + rest) == digits,
{
    let s = digits + rest;
    lemma_digit_run(s);
    let n = digit_run(s) as int;
    if n < digits.len() {
        assert(s[n] == digits[n]);
        assert(is_digit(digits[n]));
    }
    if n > digits.len() {
        assert(is_digit(s[digits.len() as int]));
        assert(s[digits.len() as int] == rest[0]);
    }
    assert(s.take(n) =~= digits);
}

/// Names that begin with numbers are ordered by the numbers, whatever follows: `10` comes after `9`.
/// Of equal numbers, the one with fewer digits comes first.
pub proof fn numbers_in_names_are_ordered_by_value(
    x: Seq<char>,
    y: Seq<char>,
    a: Seq<char>,
    b: Seq<char>,
)
    requires
        x.len() > 0,
        y.len() > 0,
        forall|i: int| 0 <= i < x.len() ==> is_digit(#[trigger] x[i]),
        forall|i: int| 0 <= i < y.len() ==> is_digit(#[trigger] y[i]),
        a.len() > 0 ==> !is_digit(a[0]),
        b.len() > 0 ==> !is_digit(b[0]),
    ensures
        number(x, 10) < number(y, 10) ==> natural_order(x + a, y + b) < 0,
        number(x, 10) > number(y, 10) ==> natural_order(x + a, y + b) > 0,
        number(x, 10) == number(y, 10) && x.len() < y.len() ==> natural_order(x + a, y + b) < 0,
        x == y ==> natural_order(x + a, y + b) == natural_order(a, b),
{
    lemma_run(x, a);
    lemma_run(y, b);
    assert((x + a)[0] == x[0] && (y + b)[0] == y[0]);
    assert((x + a).skip(x.len() as int) =~= a);
    assert((y + b).skip(y.len() as int) =~= b);
}

/// Names are otherwise ordered by their first characters that differ, without regard to the case of
/// ASCII letters, and a name comes before one that goes on where it ends.
pub proof fn names_are_ordered_by_their_letters(
    c: char,
    d: char,
    a: Seq<char>,
    b: Seq<char>,
)
    requires
        !is_digit(c) || !is_digit(d),
    ensures
        lower_ascii_char(c) < lower_ascii_char(d) ==> natural_order(seq![c] + a, seq![d] + b) < 0,
        lower_ascii_char(c) > lower_ascii_char(d) ==> natural_order(seq![c] + a, seq![d] + b) > 0,
        lower_ascii_char(c) == lower_ascii_char(d) ==> natural_order(seq![c] + a, seq![d] + b)
            == natural_order(a, b),
        natural_order(Seq::empty(), seq![d] + b) < 0,
        natural_order(seq![c] + a, Seq::empty()) > 0,
{
    let x = seq![c] + a;
    let y = seq![d] + b;
    assert(x[0] == c && y[0] == d);
    assert(x.skip(1) =~= a);
    assert(y.skip(1) =~= b);
}

/// A version is newer than another where its name comes after the other's, numbers taken as numbers;
/// no version is newer than itself, and of two different ones, one is newer.
pub proof fn one_of_two_versions_is_newer(a: Seq<char>, b: Seq<char>)
    ensures
        natural_order(a, b) > 0 ==> is_newer(a, b),
        natural_order(a, b) < 0 ==> !is_newer(a, b),
        !(is_newer(a, b) && is_newer(b, a)),
        a != b ==> is_newer(a, b) || is_newer(b, a),
{
    natural_order_is_antisymmetric(a, b);
    text_less_is_total(a, b);
}

/// The tool that was used before is used again where it is still there; else the configured one; and
/// only else one that is installed.
pub proof fn known_and_configured_tools_come_first(
    known: Option<Candidate>,
    configured: Option<Candidate>,
    versions: Seq<InstalledVersion>,
)
    ensures
        known is Some && known->0.is_file ==> chosen_tool(known, configured, versions) == Some(
            known->0.path@,
        ),
        !(known is Some && known->0.is_file) && configured is Some && configured->0.is_file
            ==> chosen_tool(known, configured, versions) == Some(configured->0.path@),
        !(known is Some && known->0.is_file) && !(configured is Some && configured->0.is_file)
            ==> chosen_tool(known, configured, versions) == chosen_tool(None, None, versions),
{
}

/// Where no installed version has the tool, none is chosen.
pub proof fn no_tool_is_made_up(versions: Seq<InstalledVersion>)
    requires
        forall|i: int| 0 <= i < versions.len() ==> !(#[trigger] versions[i]).tool_is_file,
    ensures
        chosen_tool(None, None, versions) is None,
{
    broadcast use vstd::seq_lib::group_to_multiset_ensures;

    let ordered = crate::order::sorted::<crate::versions::NewestVersionFirst>(versions);
    crate::order::sorted_is_an_ordered_rearrangement::<crate::versions::NewestVersionFirst>(
        versions,
    );
    assert forall|i: int| 0 <= i < ordered.len() implies !(#[trigger] ordered[i]).tool_is_file by {
        assert(ordered.contains(ordered[i]));
        assert(ordered.to_multiset().count(ordered[i]) > 0);
        assert(versions.contains(ordered[i]));
    }
    lemma_no_tool(ordered);
}

proof fn lemma_no_tool(versions: Seq<InstalledVersion>)
    requires
        forall|i: int| 0 <= i < versions.len() ==> !(#[trigger] versions[i]).tool_is_file,
    ensures
        first_tool(versions) is None,
    decreases versions.len(),
{
    if versions.len() > 0 {
        let rest = versions.subrange(1, versions.len() as int);
        assert forall|i: int| 0 <= i < rest.len() implies !(#[trigger] rest[i]).tool_is_file by {
            assert(rest[i] == versions[i + 1]);
        }
        lemma_no_tool(rest);
    }
}

} // verus!
