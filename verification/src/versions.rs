//! Installed versions of PIX, and which of them is used.

use crate::failure::Failure;
use crate::numbers::{digit_value, number};
use crate::order::{
    comes_before, sort, sorted, sorted_is_an_ordered_rearrangement, text_less, text_less_is_total, text_less_is_transitive, Precedence,
};
use crate::pixtool::PixTool;
use crate::text::{
    chars_of, digit, is_digit, lower_ascii, lower_ascii_char, same_ignoring_case,
    to_lower_ascii_char,
};
use std::cmp::Ordering;
use vstd::prelude::*;
use vstd::string::*;

verus! {

/// How many digits `s` begins with.
pub open spec fn digit_run(s: Seq<char>) -> nat
    decreases s.len(),
{
    if s.len() == 0 || !is_digit(s[0]) {
        0
    } else {
        1 + digit_run(s.subrange(1, s.len() as int))
    }
}

/// The digits that `s` begins with.
pub open spec fn leading_digits(s: Seq<char>) -> Seq<char> {
    s.take(digit_run(s) as int)
}

/// How two names compare: -1, 0 or 1. Runs of digits compare as numbers, and of equal numbers
/// the one with fewer digits comes first. Other characters compare without regard to the case
/// of ASCII letters. Of two names of which one is the beginning of the other, the shorter
/// comes first.
pub open spec fn natural_order(a: Seq<char>, b: Seq<char>) -> int
    decreases a.len(),
{
    proof {
        lemma_digit_run(a);
    }
    if a.len() == 0 || b.len() == 0 {
        sign(a.len() - b.len())
    } else if is_digit(a[0]) && is_digit(b[0]) {
        let x = leading_digits(a);
        let y = leading_digits(b);
        if number(x, 10) != number(y, 10) {
            sign(number(x, 10) - number(y, 10))
        } else if x.len() != y.len() {
            sign(x.len() - y.len())
        } else {
            natural_order(a.skip(x.len() as int), b.skip(y.len() as int))
        }
    } else if lower_ascii_char(a[0]) != lower_ascii_char(b[0]) {
        sign(lower_ascii_char(a[0]) as int - lower_ascii_char(b[0]) as int)
    } else {
        natural_order(a.skip(1), b.skip(1))
    }
}

pub open spec fn sign(n: int) -> int {
    if n < 0 {
        -1
    } else if n > 0 {
        1
    } else {
        0
    }
}

pub proof fn lemma_digit_run(s: Seq<char>)
    ensures
        digit_run(s) <= s.len(),
        forall|k: int| 0 <= k < digit_run(s) ==> is_digit(#[trigger] s[k]),
        digit_run(s) < s.len() ==> !is_digit(s[digit_run(s) as int]),
        s.len() > 0 && is_digit(s[0]) ==> digit_run(s) > 0,
    decreases s.len(),
{
    if s.len() > 0 && is_digit(s[0]) {
        let rest = s.subrange(1, s.len() as int);
        lemma_digit_run(rest);
        assert forall|k: int| 0 <= k < digit_run(s) implies is_digit(#[trigger] s[k]) by {
            if k > 0 {
                assert(s[k] == rest[k - 1]);
            }
        }
        if digit_run(s) < s.len() {
            assert(s[digit_run(s) as int] == rest[digit_run(rest) as int]);
        }
    }
}

proof fn lemma_digit_run_is(s: Seq<char>, n: int)
    requires
        0 <= n <= s.len(),
        forall|k: int| 0 <= k < n ==> is_digit(#[trigger] s[k]),
        n < s.len() ==> !is_digit(s[n]),
    ensures
        digit_run(s) == n,
{
    lemma_digit_run(s);
    let d = digit_run(s) as int;
    if d < n {
        assert(is_digit(s[d]));
    }
    if n < d {
        assert(is_digit(s[n]));
    }
}

/// Swapping two names turns their order round.
pub proof fn natural_order_is_antisymmetric(a: Seq<char>, b: Seq<char>)
    ensures
        natural_order(a, b) == -natural_order(b, a),
    decreases a.len(),
{
    if a.len() > 0 && b.len() > 0 {
        if is_digit(a[0]) && is_digit(b[0]) {
            lemma_digit_run(a);
            lemma_digit_run(b);
            natural_order_is_antisymmetric(
                a.skip(leading_digits(a).len() as int),
                b.skip(leading_digits(b).len() as int),
            );
        } else {
            natural_order_is_antisymmetric(a.skip(1), b.skip(1));
        }
    }
}

/// A name that does not come after a second, which does not come after a third, does not come
/// after the third.
pub proof fn natural_order_is_transitive(a: Seq<char>, b: Seq<char>, c: Seq<char>)
    requires
        natural_order(a, b) <= 0,
        natural_order(b, c) <= 0,
    ensures
        natural_order(a, c) <= 0,
        natural_order(a, b) < 0 || natural_order(b, c) < 0 ==> natural_order(a, c) < 0,
    decreases a.len(),
{
    if a.len() > 0 && b.len() > 0 && c.len() > 0 {
        lemma_digit_run(a);
        lemma_digit_run(b);
        lemma_digit_run(c);
        if is_digit(a[0]) && is_digit(b[0]) && is_digit(c[0]) {
            let x = leading_digits(a);
            let y = leading_digits(b);
            let z = leading_digits(c);
            if number(x, 10) == number(y, 10) && number(y, 10) == number(z, 10) && x.len()
                == y.len() && y.len() == z.len() {
                natural_order_is_transitive(
                    a.skip(x.len() as int),
                    b.skip(y.len() as int),
                    c.skip(z.len() as int),
                );
            }
        } else if lower_ascii_char(a[0]) == lower_ascii_char(b[0]) && lower_ascii_char(b[0])
            == lower_ascii_char(c[0]) {
            natural_order_is_transitive(a.skip(1), b.skip(1), c.skip(1));
        }
    }
}

// ---------------------------------------------------------------------------
// Digits as numbers
// ---------------------------------------------------------------------------

spec fn pow10(n: nat) -> nat
    decreases n,
{
    if n == 0 {
        1
    } else {
        10 * pow10((n - 1) as nat)
    }
}

spec fn are_digits(s: Seq<char>) -> bool {
    forall|k: int| 0 <= k < s.len() ==> is_digit(#[trigger] s[k])
}

/// What a digit counts for.
spec fn worth(c: char) -> int {
    c as int - 48
}

proof fn lemma_pow10_grows(m: nat, n: nat)
    requires
        m <= n,
    ensures
        0 < pow10(m) <= pow10(n),
    decreases n,
{
    if m < n {
        lemma_pow10_grows(m, (n - 1) as nat);
    } else if n > 0 {
        lemma_pow10_grows((m - 1) as nat, (n - 1) as nat);
    }
}

/// The first digit counts most.
proof fn lemma_number_front(s: Seq<char>)
    requires
        are_digits(s),
        s.len() > 0,
    ensures
        number(s, 10) == worth(s[0]) * pow10((s.len() - 1) as nat) + number(s.skip(1), 10),
        number(s.skip(1), 10) < pow10((s.len() - 1) as nat),
        0 <= worth(s[0]) <= 9,
    decreases s.len(),
{
    assert(is_digit(s[0]));
    assert(s.last() == s[s.len() - 1]);
    assert(is_digit(s.last()));
    if s.len() == 1 {
        assert(s.skip(1) =~= seq![]);
        assert(s.drop_last() =~= seq![]);
        assert(number(s.skip(1), 10) == 0);
        assert(number(s.drop_last(), 10) == 0);
        assert(pow10(0) == 1);
        assert(number(s, 10) == number(s.drop_last(), 10) * 10 + digit_value(
            s.last(),
            10,
        ).unwrap_or(0));
    } else {
        let head = s.drop_last();
        let tail = s.skip(1);
        assert(are_digits(head)) by {
            assert forall|k: int| 0 <= k < head.len() implies is_digit(#[trigger] head[k]) by {
                assert(head[k] == s[k]);
            }
        }
        lemma_number_front(head);
        assert(head[0] == s[0]);
        assert(tail.drop_last() =~= head.skip(1));
        assert(tail.last() == s.last());
        let p = pow10((s.len() - 2) as nat);
        let w = worth(s[0]);
        assert(pow10((s.len() - 1) as nat) == 10 * p);
        assert((w * p) * 10 == w * (10 * p)) by (nonlinear_arith);
        assert(number(tail, 10) == number(head.skip(1), 10) * 10 + digit_value(
            s.last(),
            10,
        ).unwrap_or(0));
        assert(number(s, 10) == number(head, 10) * 10 + digit_value(s.last(), 10).unwrap_or(0));
    }
}

/// Digits that start with a digit above zero are at least as much as that digit alone.
proof fn lemma_number_bounds(s: Seq<char>)
    requires
        are_digits(s),
    ensures
        number(s, 10) < pow10(s.len()),
        s.len() > 0 && s[0] != '0' ==> number(s, 10) >= pow10((s.len() - 1) as nat),
{
    if s.len() > 0 {
        lemma_number_front(s);
        let p = pow10((s.len() - 1) as nat);
        let w = worth(s[0]);
        lemma_pow10_grows(0, (s.len() - 1) as nat);
        assert(w * p <= 9 * p) by (nonlinear_arith)
            requires
                0 <= w <= 9,
                p > 0,
        ;
        if s[0] != '0' {
            assert(w * p >= p) by (nonlinear_arith)
                requires
                    w >= 1,
                    p > 0,
            ;
        }
    }
}

/// Leading zeros do not count.
proof fn lemma_number_skips_zeros(s: Seq<char>, n: int)
    requires
        are_digits(s),
        0 <= n <= s.len(),
        forall|k: int| 0 <= k < n ==> #[trigger] s[k] == '0',
    ensures
        number(s, 10) == number(s.skip(n), 10),
    decreases n,
{
    if n > 0 {
        lemma_number_front(s);
        let rest = s.skip(1);
        assert(are_digits(rest)) by {
            assert forall|k: int| 0 <= k < rest.len() implies is_digit(#[trigger] rest[k]) by {
                assert(rest[k] == s[k + 1]);
            }
        }
        assert forall|k: int| 0 <= k < n - 1 implies #[trigger] rest[k] == '0' by {
            assert(rest[k] == s[k + 1]);
        }
        assert(s[0] == '0');
        assert(worth(s[0]) * pow10((s.len() - 1) as nat) == 0) by (nonlinear_arith)
            requires
                worth(s[0]) == 0,
        ;
        lemma_number_skips_zeros(rest, n - 1);
        assert(rest.skip(n - 1) =~= s.skip(n));
    } else {
        assert(s.skip(0) =~= s);
    }
}

/// Two runs of equally many digits compare by the first digits that differ.
proof fn lemma_number_compares(x: Seq<char>, y: Seq<char>, at: int)
    requires
        are_digits(x),
        are_digits(y),
        x.len() == y.len(),
        0 <= at < x.len(),
        forall|k: int| 0 <= k < at ==> #[trigger] x[k] == y[k],
        x[at] < y[at],
    ensures
        number(x, 10) < number(y, 10),
    decreases at,
{
    lemma_number_front(x);
    lemma_number_front(y);
    let p = pow10((x.len() - 1) as nat);
    let v = worth(x[0]);
    let w = worth(y[0]);
    let x1 = x.skip(1);
    let y1 = y.skip(1);
    if at == 0 {
        assert(v * p + p <= w * p) by (nonlinear_arith)
            requires
                v + 1 <= w,
                p >= 0,
        ;
    } else {
        assert(x[0] == y[0]);
        assert(are_digits(x1)) by {
            assert forall|k: int| 0 <= k < x1.len() implies is_digit(#[trigger] x1[k]) by {
                assert(x1[k] == x[k + 1]);
            }
        }
        assert(are_digits(y1)) by {
            assert forall|k: int| 0 <= k < y1.len() implies is_digit(#[trigger] y1[k]) by {
                assert(y1[k] == y[k + 1]);
            }
        }
        assert forall|k: int| 0 <= k < at - 1 implies #[trigger] x1[k] == y1[k] by {
            assert(x1[k] == x[k + 1] && y1[k] == y[k + 1]);
            assert(x[k + 1] == y[k + 1]);
        }
        lemma_number_compares(x1, y1, at - 1);
    }
}

/// Runs of equally many digits that spell the same number are the same.
proof fn lemma_number_is_injective(x: Seq<char>, y: Seq<char>, n: int)
    requires
        are_digits(x),
        are_digits(y),
        x.len() == y.len(),
        number(x, 10) == number(y, 10),
        0 <= n <= x.len(),
    ensures
        forall|k: int| 0 <= k < n ==> #[trigger] x[k] == y[k],
    decreases n,
{
    if n > 0 {
        lemma_number_is_injective(x, y, n - 1);
        if x[n - 1] < y[n - 1] {
            lemma_number_compares(x, y, n - 1);
        } else if x[n - 1] > y[n - 1] {
            lemma_number_compares(y, x, n - 1);
        }
    }
}

/// Neither of two names comes before the other exactly where they are equal up to the case of
/// ASCII letters.
pub proof fn natural_order_tells_names_apart(a: Seq<char>, b: Seq<char>)
    ensures
        natural_order(a, b) == 0 <==> same_ignoring_case(a, b),
    decreases a.len(),
{
    let (s, t) = (lower_ascii(a), lower_ascii(b));
    if a.len() == 0 || b.len() == 0 {
        assert(s.len() == a.len() && t.len() == b.len());
        if a.len() == b.len() {
            assert(s =~= t);
        }
    } else if is_digit(a[0]) && is_digit(b[0]) {
        lemma_digit_run(a);
        lemma_digit_run(b);
        let x = leading_digits(a);
        let y = leading_digits(b);
        let m = x.len() as int;
        if same_ignoring_case(a, b) {
            assert(a.len() == s.len() && b.len() == t.len());
            assert forall|k: int| 0 <= k < m implies is_digit(#[trigger] b[k]) by {
                assert(is_digit(a[k]));
                assert(s[k] == t[k]);
            }
            if m < b.len() {
                assert(!is_digit(a[m]));
                assert(s[m] == t[m]);
            }
            lemma_digit_run_is(b, m);
            assert forall|k: int| 0 <= k < m implies #[trigger] x[k] == y[k] by {
                assert(is_digit(a[k]) && is_digit(b[k]));
                assert(s[k] == t[k]);
            }
            assert(x =~= y);
        }
        if x.len() == y.len() && number(x, 10) == number(y, 10) {
            assert forall|k: int| 0 <= k < m implies is_digit(#[trigger] x[k]) by {
                assert(is_digit(a[k]));
            }
            assert forall|k: int| 0 <= k < m implies is_digit(#[trigger] y[k]) by {
                assert(is_digit(b[k]));
            }
            lemma_number_is_injective(x, y, m);
            natural_order_tells_names_apart(a.skip(m), b.skip(m));
            assert(s =~= x + lower_ascii(a.skip(m))) by {
                assert(forall|k: int| 0 <= k < m ==> is_digit(#[trigger] a[k]));
            }
            assert(t =~= y + lower_ascii(b.skip(m))) by {
                assert(forall|k: int| 0 <= k < m ==> is_digit(#[trigger] b[k]));
            }
            assert(x =~= y);
            assert(s.skip(m) =~= lower_ascii(a.skip(m)));
            assert(t.skip(m) =~= lower_ascii(b.skip(m)));
        }
    } else {
        assert(s[0] == lower_ascii_char(a[0]) && t[0] == lower_ascii_char(b[0]));
        natural_order_tells_names_apart(a.skip(1), b.skip(1));
        assert(s =~= seq![s[0]] + lower_ascii(a.skip(1)));
        assert(t =~= seq![t[0]] + lower_ascii(b.skip(1)));
        assert(s.skip(1) =~= lower_ascii(a.skip(1)));
        assert(t.skip(1) =~= lower_ascii(b.skip(1)));
    }
}

/// Compares the numbers that two runs of digits spell.
fn order_numbers(
    a: &Vec<char>,
    a_from: usize,
    a_to: usize,
    b: &Vec<char>,
    b_from: usize,
    b_to: usize,
) -> (r: i8)
    requires
        a_from <= a_to <= a.len(),
        b_from <= b_to <= b.len(),
        are_digits(a@.subrange(a_from as int, a_to as int)),
        are_digits(b@.subrange(b_from as int, b_to as int)),
    ensures
        r == sign(
            number(a@.subrange(a_from as int, a_to as int), 10) - number(
                b@.subrange(b_from as int, b_to as int),
                10,
            ),
        ),
{
    let ghost x = a@.subrange(a_from as int, a_to as int);
    let ghost y = b@.subrange(b_from as int, b_to as int);
    let mut i: usize = a_from;
    while i < a_to && a[i] == '0'
        invariant
            a_from <= i <= a_to <= a.len(),
            x == a@.subrange(a_from as int, a_to as int),
            forall|k: int| 0 <= k < i - a_from ==> #[trigger] x[k] == '0',
        decreases a_to - i,
    {
        assert(x[i - a_from] == a@[i as int]);
        i += 1;
    }
    let mut j: usize = b_from;
    while j < b_to && b[j] == '0'
        invariant
            b_from <= j <= b_to <= b.len(),
            y == b@.subrange(b_from as int, b_to as int),
            forall|k: int| 0 <= k < j - b_from ==> #[trigger] y[k] == '0',
        decreases b_to - j,
    {
        assert(y[j - b_from] == b@[j as int]);
        j += 1;
    }
    let ghost p = x.skip(i - a_from);
    let ghost q = y.skip(j - b_from);
    proof {
        lemma_number_skips_zeros(x, i - a_from);
        lemma_number_skips_zeros(y, j - b_from);
        assert(are_digits(p)) by {
            assert forall|k: int| 0 <= k < p.len() implies is_digit(#[trigger] p[k]) by {
                assert(p[k] == x[k + (i - a_from)]);
            }
        }
        assert(are_digits(q)) by {
            assert forall|k: int| 0 <= k < q.len() implies is_digit(#[trigger] q[k]) by {
                assert(q[k] == y[k + (j - b_from)]);
            }
        }
        assert(p.len() > 0 ==> p[0] == a@[i as int]);
        assert(q.len() > 0 ==> q[0] == b@[j as int]);
        lemma_number_bounds(p);
        lemma_number_bounds(q);
    }
    if a_to - i < b_to - j {
        proof {
            lemma_pow10_grows(p.len(), (q.len() - 1) as nat);
        }
        return -1;
    }
    if a_to - i > b_to - j {
        proof {
            lemma_pow10_grows(q.len(), (p.len() - 1) as nat);
        }
        return 1;
    }
    let mut n: usize = 0;
    while n < a_to - i
        invariant
            a_from <= i <= a_to <= a.len(),
            b_from <= j <= b_to <= b.len(),
            a_to - i == b_to - j,
            n <= a_to - i,
            x == a@.subrange(a_from as int, a_to as int),
            y == b@.subrange(b_from as int, b_to as int),
            p == x.skip(i - a_from),
            q == y.skip(j - b_from),
            p.len() == q.len() == a_to - i,
            are_digits(p),
            are_digits(q),
            number(x, 10) == number(p, 10),
            number(y, 10) == number(q, 10),
            forall|k: int| 0 <= k < n ==> #[trigger] p[k] == q[k],
        decreases a_to - i - n,
    {
        assert(p[n as int] == a@[i + n]);
        assert(q[n as int] == b@[j + n]);
        if a[i + n] < b[j + n] {
            proof {
                lemma_number_compares(p, q, n as int);
            }
            return -1;
        }
        if b[j + n] < a[i + n] {
            proof {
                assert forall|k: int| 0 <= k < n implies #[trigger] q[k] == p[k] by {
                    assert(p[k] == q[k]);
                }
                lemma_number_compares(q, p, n as int);
            }
            return 1;
        }
        n += 1;
    }
    assert(p =~= q);
    0
}

fn run_end(s: &Vec<char>, from: usize) -> (r: usize)
    requires
        from <= s.len(),
    ensures
        from <= r <= s.len(),
        r - from == digit_run(s@.skip(from as int)),
        are_digits(s@.subrange(from as int, r as int)),
        s@.subrange(from as int, r as int) == leading_digits(s@.skip(from as int)),
{
    let ghost rest = s@.skip(from as int);
    let mut i: usize = from;
    while i < s.len() && digit(s[i])
        invariant
            from <= i <= s.len(),
            rest == s@.skip(from as int),
            forall|k: int| 0 <= k < i - from ==> is_digit(#[trigger] rest[k]),
        decreases s.len() - i,
    {
        assert(rest[i - from] == s@[i as int]);
        i += 1;
    }
    proof {
        assert(i < s.len() ==> rest[i - from] == s@[i as int]);
        lemma_digit_run_is(rest, i - from);
        let run = s@.subrange(from as int, i as int);
        assert forall|k: int| 0 <= k < run.len() implies is_digit(#[trigger] run[k]) by {
            assert(run[k] == rest[k]);
        }
        assert(run =~= leading_digits(rest));
    }
    i
}

fn order_lengths(a: usize, b: usize) -> (r: i8)
    ensures
        r == sign(a - b),
{
    if a < b {
        -1
    } else if a > b {
        1
    } else {
        0
    }
}

/// How two names compare: -1, 0 or 1.
pub fn order_names(left: &str, right: &str) -> (r: i8)
    ensures
        r == natural_order(left@, right@),
{
    let a = chars_of(left);
    let b = chars_of(right);
    let mut i: usize = 0;
    let mut j: usize = 0;
    assert(a@.skip(0) =~= a@ && b@.skip(0) =~= b@);
    while i < a.len() && j < b.len()
        invariant
            i <= a.len(),
            j <= b.len(),
            natural_order(left@, right@) == natural_order(a@.skip(i as int), b@.skip(j as int)),
        decreases a.len() - i,
    {
        let ghost p = a@.skip(i as int);
        let ghost q = b@.skip(j as int);
        assert(p[0] == a@[i as int] && q[0] == b@[j as int]);
        proof {
            lemma_digit_run(p);
            lemma_digit_run(q);
        }
        if digit(a[i]) && digit(b[j]) {
            let a_to: usize = run_end(&a, i);
            let b_to: usize = run_end(&b, j);
            let order: i8 = order_numbers(&a, i, a_to, &b, j, b_to);
            if order != 0 {
                return order;
            }
            let order: i8 = order_lengths(a_to - i, b_to - j);
            if order != 0 {
                return order;
            }
            assert(p.skip(a_to - i) =~= a@.skip(a_to as int));
            assert(q.skip(b_to - j) =~= b@.skip(b_to as int));
            i = a_to;
            j = b_to;
        } else {
            let c = to_lower_ascii_char(a[i]);
            let d = to_lower_ascii_char(b[j]);
            if c < d {
                return -1;
            }
            if d < c {
                return 1;
            }
            assert(p.skip(1) =~= a@.skip(i + 1));
            assert(q.skip(1) =~= b@.skip(j + 1));
            i += 1;
            j += 1;
        }
    }
    order_lengths(a.len() - i, b.len() - j)
}

/// The order of two names, with numbers in them taken as numbers.
pub fn natural_compare(left: &str, right: &str) -> (r: Ordering)
    ensures
        match r {
            Ordering::Less => natural_order(left@, right@) < 0,
            Ordering::Equal => natural_order(left@, right@) == 0,
            Ordering::Greater => natural_order(left@, right@) > 0,
        },
{
    let order: i8 = order_names(left, right);
    if order < 0 {
        Ordering::Less
    } else if order > 0 {
        Ordering::Greater
    } else {
        Ordering::Equal
    }
}

/// Whether version `a` is newer than version `b`; of names that differ in case alone, the one
/// with the larger text is.
pub open spec fn is_newer(a: Seq<char>, b: Seq<char>) -> bool {
    natural_order(a, b) > 0 || (natural_order(a, b) == 0 && text_less(b, a))
}

/// A directory of an installed version, with the tool that it should hold.
#[derive(Debug)]
pub struct InstalledVersion {
    pub name: String,
    pub tool_path: String,
    pub tool_is_file: bool,
}

/// Installed versions, the newest first.
pub struct NewestVersionFirst;

impl Precedence for NewestVersionFirst {
    type Item = InstalledVersion;

    open spec fn leq(a: InstalledVersion, b: InstalledVersion) -> bool {
        !is_newer(b.name@, a.name@)
    }

    proof fn total(a: InstalledVersion, b: InstalledVersion) {
        natural_order_is_antisymmetric(a.name@, b.name@);
        text_less_is_total(a.name@, b.name@);
    }

    proof fn transitive(a: InstalledVersion, b: InstalledVersion, c: InstalledVersion) {
        let x = a.name@;
        let y = b.name@;
        let z = c.name@;
        natural_order_is_antisymmetric(x, y);
        natural_order_is_antisymmetric(y, z);
        natural_order_is_antisymmetric(x, z);
        natural_order_is_transitive(z, y, x);
        text_less_is_total(x, y);
        text_less_is_total(y, z);
        text_less_is_total(x, z);
        if text_less(z, y) && text_less(y, x) {
            text_less_is_transitive(z, y, x);
        }
    }

    fn may_precede(a: &InstalledVersion, b: &InstalledVersion) -> (r: bool) {
        let order: i8 = order_names(&b.name, &a.name);
        !(order > 0 || (order == 0 && comes_before(&a.name, &b.name)))
    }
}

/// A place where the tool may be.
#[derive(Debug)]
pub struct Candidate {
    pub path: String,
    pub is_file: bool,
}

/// The tool of the first version that has one.
pub open spec fn first_tool(versions: Seq<InstalledVersion>) -> Option<Seq<char>>
    decreases versions.len(),
{
    if versions.len() == 0 {
        None
    } else if versions[0].tool_is_file {
        Some(versions[0].tool_path@)
    } else {
        first_tool(versions.subrange(1, versions.len() as int))
    }
}

/// The tool that is used: the one that was used before, else the configured one, else that of the
/// newest installed version that has one.
pub open spec fn chosen_tool(
    known: Option<Candidate>,
    configured: Option<Candidate>,
    versions: Seq<InstalledVersion>,
) -> Option<Seq<char>> {
    if known is Some && known->0.is_file {
        Some(known->0.path@)
    } else if configured is Some && configured->0.is_file {
        Some(configured->0.path@)
    } else {
        first_tool(sorted::<NewestVersionFirst>(versions))
    }
}

impl PixTool {
    /// Finds the tool among the places where it may be.
    pub fn find(
        known: &Option<Candidate>,
        configured: &Option<Candidate>,
        versions: Vec<InstalledVersion>,
    ) -> (r: Result<String, Failure>)
        ensures
            match chosen_tool(*known, *configured, versions@) {
                Some(path) => r is Ok && r->Ok_0@ == path,
                None => r is Err && r->Err_0.message@
                    == "Could not find pixtool.exe. Install PIX from Microsoft Store or set PIXTOOL_PATH environment variable."@,
            },
    {
        if let Some(candidate) = known {
            if candidate.is_file {
                return Ok(candidate.path.clone());
            }
        }
        if let Some(candidate) = configured {
            if candidate.is_file {
                return Ok(candidate.path.clone());
            }
        }
        let ordered = sort::<NewestVersionFirst>(versions);
        let mut i: usize = 0;
        assert(ordered@.skip(0) =~= ordered@);
        while i < ordered.len()
            invariant
                i <= ordered.len(),
                chosen_tool(*known, *configured, versions@) == first_tool(ordered@),
                first_tool(ordered@) == first_tool(ordered@.skip(i as int)),
            decreases ordered.len() - i,
        {
            let ghost rest = ordered@.skip(i as int);
            assert(rest[0] == ordered@[i as int]);
            if ordered[i].tool_is_file {
                return Ok(ordered[i].tool_path.clone());
            }
            assert(rest.subrange(1, rest.len() as int) =~= ordered@.skip(i + 1));
            i += 1;
        }
        Err(
            Failure::of(
                "Could not find pixtool.exe. Install PIX from Microsoft Store or set PIXTOOL_PATH environment variable.",
            ),
        )
    }
}

/// Where neither a known nor a configured tool is used, no installed version with a tool is newer
/// than the one whose tool is used.
pub proof fn newest_installed_tool_is_chosen(versions: Seq<InstalledVersion>, other: int)
    requires
        0 <= other < versions.len(),
        versions[other].tool_is_file,
    ensures
        chosen_tool(None, None, versions) is Some,
        exists|i: int|
            0 <= i < versions.len() && (#[trigger] versions[i]).tool_is_file && Some(
                versions[i].tool_path@,
            ) == chosen_tool(None, None, versions) && !is_newer(
                versions[other].name@,
                versions[i].name@,
            ),
{
    broadcast use vstd::seq_lib::group_to_multiset_ensures;

    let ordered = sorted::<NewestVersionFirst>(versions);
    sorted_is_an_ordered_rearrangement::<NewestVersionFirst>(versions);
    assert(versions.contains(versions[other]));
    assert(ordered.to_multiset().contains(versions[other]));
    assert(ordered.contains(versions[other]));
    let at = choose|at: int| 0 <= at < ordered.len() && ordered[at] == versions[other];
    lemma_first_tool(ordered, at);
    let k = choose|k: int|
        0 <= k <= at && (#[trigger] ordered[k]).tool_is_file && first_tool(ordered) == Some(
            ordered[k].tool_path@,
        );
    assert(ordered.contains(ordered[k]));
    assert(versions.to_multiset().contains(ordered[k]));
    assert(versions.contains(ordered[k]));
    let i = choose|i: int| 0 <= i < versions.len() && versions[i] == ordered[k];
    if k < at {
        assert(NewestVersionFirst::leq(ordered[k], ordered[at]));
    } else {
        natural_order_is_antisymmetric(versions[other].name@, versions[other].name@);
        text_less_is_total(versions[other].name@, versions[other].name@);
    }
    assert(versions[i].tool_is_file);
}

proof fn lemma_first_tool(versions: Seq<InstalledVersion>, at: int)
    requires
        0 <= at < versions.len(),
        versions[at].tool_is_file,
    ensures
        exists|k: int|
            0 <= k <= at && (#[trigger] versions[k]).tool_is_file && first_tool(versions) == Some(
                versions[k].tool_path@,
            ),
    decreases versions.len(),
{
    if versions[0].tool_is_file {
        assert(first_tool(versions) == Some(versions[0].tool_path@));
    } else {
        let rest = versions.subrange(1, versions.len() as int);
        assert(rest[at - 1] == versions[at]);
        lemma_first_tool(rest, at - 1);
        let k = choose|k: int|
            0 <= k <= at - 1 && (#[trigger] rest[k]).tool_is_file && first_tool(rest) == Some(
                rest[k].tool_path@,
            );
        assert(versions[k + 1] == rest[k]);
    }
}

} // verus!
