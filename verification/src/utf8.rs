//! Text measured and cut in UTF-8 bytes.

use crate::text::{byte_len, chars_of, sub_text, utf8_len};
use vstd::prelude::*;
use vstd::string::*;
use vstd::utf8::*;

verus! {

/// The number of bytes that `c` takes.
pub open spec fn char_len(c: char) -> nat {
    let u = c as u32;
    if u < 0x80 {
        1
    } else if u < 0x800 {
        2
    } else if u < 0x10000 {
        3
    } else {
        4
    }
}

fn width(c: char) -> (r: usize)
    ensures
        r == char_len(c),
{
    let u: u32 = c as u32;
    if u < 0x80 {
        1
    } else if u < 0x800 {
        2
    } else if u < 0x10000 {
        3
    } else {
        4
    }
}

proof fn lemma_scalar_len(c: char)
    ensures
        encode_scalar(c as u32).len() == char_len(c),
{
    char_is_scalar(c);
}

/// Lengths add up over a concatenation.
pub proof fn utf8_len_of_concatenation(a: Seq<char>, b: Seq<char>)
    ensures
        utf8_len(a + b) == utf8_len(a) + utf8_len(b),
    decreases a.len(),
{
    if a.len() == 0 {
        assert(a + b =~= b);
    } else {
        let rest = a.drop_first();
        utf8_len_of_concatenation(rest, b);
        assert((a + b).drop_first() =~= rest + b);
        assert((a + b)[0] == a[0]);
    }
}

pub proof fn utf8_len_of_char(c: char)
    ensures
        utf8_len(seq![c]) == char_len(c),
{
    lemma_scalar_len(c);
    assert(seq![c].drop_first() =~= seq![]);
    assert(encode_utf8(seq![c]) =~= encode_scalar(c as u32) + encode_utf8(seq![]));
}

pub proof fn utf8_len_of_push(s: Seq<char>, c: char)
    ensures
        utf8_len(s.push(c)) == utf8_len(s) + char_len(c),
{
    utf8_len_of_concatenation(s, seq![c]);
    utf8_len_of_char(c);
    assert(s.push(c) =~= s + seq![c]);
}

/// Every character takes between one and four bytes.
pub proof fn utf8_len_bounds(s: Seq<char>)
    ensures
        s.len() <= utf8_len(s) <= 4 * s.len(),
    decreases s.len(),
{
    if s.len() > 0 {
        utf8_len_bounds(s.drop_last());
        utf8_len_of_push(s.drop_last(), s.last());
        assert(s.drop_last().push(s.last()) =~= s);
    }
}

/// Text of ASCII characters takes one byte for each.
pub proof fn utf8_len_of_ascii(s: Seq<char>)
    requires
        forall|i: int| 0 <= i < s.len() ==> (#[trigger] s[i] as u32) < 0x80,
    ensures
        utf8_len(s) == s.len(),
    decreases s.len(),
{
    if s.len() > 0 {
        utf8_len_of_ascii(s.drop_last());
        utf8_len_of_push(s.drop_last(), s.last());
        assert(s.drop_last().push(s.last()) =~= s);
    }
}

/// How many leading characters of `s` fit in `room` bytes.
pub open spec fn fitting(s: Seq<char>, room: nat) -> nat
    decreases s.len(),
{
    if utf8_len(s) <= room || s.len() == 0 {
        s.len()
    } else {
        fitting(s.drop_last(), room)
    }
}

/// The longest beginning of `s` that fits in `room` bytes.
pub open spec fn fitting_prefix(s: Seq<char>, room: nat) -> Seq<char> {
    s.take(fitting(s, room) as int)
}

proof fn lemma_prefix_len(s: Seq<char>, n: int)
    requires
        0 <= n <= s.len(),
    ensures
        utf8_len(s.take(n)) <= utf8_len(s),
{
    utf8_len_of_concatenation(s.take(n), s.skip(n));
    assert(s.take(n) + s.skip(n) =~= s);
}

proof fn lemma_fitting_is(s: Seq<char>, room: nat, n: int)
    requires
        0 <= n <= s.len(),
        utf8_len(s.take(n)) <= room,
        n < s.len() ==> utf8_len(s.take(n + 1)) > room,
    ensures
        fitting(s, room) == n,
    decreases s.len(),
{
    if n < s.len() {
        lemma_prefix_len(s, n + 1);
        assert(s.drop_last().take(n) =~= s.take(n));
        if n < s.len() - 1 {
            assert(s.drop_last().take(n + 1) =~= s.take(n + 1));
        }
        lemma_fitting_is(s.drop_last(), room, n);
    } else {
        assert(s.take(n) =~= s);
    }
}

/// What fits is a beginning of the text, takes no more than the room, and one more
/// character would take more.
pub proof fn fitting_prefix_is_the_longest(s: Seq<char>, room: nat)
    ensures
        fitting(s, room) <= s.len(),
        utf8_len(fitting_prefix(s, room)) <= room,
        fitting(s, room) < s.len() ==> utf8_len(s.take(fitting(s, room) as int + 1)) > room,
    decreases s.len(),
{
    if utf8_len(s) <= room || s.len() == 0 {
        assert(s.take(s.len() as int) =~= s);
        if s.len() == 0 {
            utf8_len_bounds(s);
        }
    } else {
        let head = s.drop_last();
        fitting_prefix_is_the_longest(head, room);
        let n = fitting(head, room) as int;
        assert(head.take(n) =~= s.take(n));
        if n < head.len() {
            assert(head.take(n + 1) =~= s.take(n + 1));
        } else {
            assert(s.take(n + 1) =~= s);
        }
    }
}

/// What stands at the end of a text that was cut.
pub open spec fn cut_marker() -> Seq<char> {
    "…[truncated]"@
}

pub proof fn cut_marker_len()
    ensures
        utf8_len(cut_marker()) == 14,
{
    let m = cut_marker();
    reveal_strlit("…[truncated]");
    assert(m.len() == 12);
    let head = m.take(1);
    let tail = m.skip(1);
    assert(m =~= head + tail);
    assert(head =~= seq!['…']);
    utf8_len_of_char('…');
    assert forall|i: int| 0 <= i < tail.len() implies (#[trigger] tail[i] as u32) < 0x80 by {
        assert(tail[i] == m[i + 1]);
    }
    utf8_len_of_ascii(tail);
    utf8_len_of_concatenation(head, tail);
}

/// `s` in at most `max_bytes` bytes: as it is where it fits, otherwise its longest
/// beginning that leaves room for the marker, and the marker. Nothing is left where
/// not even the marker fits.
pub open spec fn cut(s: Seq<char>, max_bytes: nat) -> Seq<char> {
    if utf8_len(s) <= max_bytes {
        s
    } else if max_bytes < 14 {
        seq![]
    } else {
        fitting_prefix(s, (max_bytes - 14) as nat) + cut_marker()
    }
}

/// Whether cutting `s` to `max_bytes` drops anything.
pub open spec fn is_cut(s: Seq<char>, max_bytes: nat) -> bool {
    utf8_len(s) > max_bytes
}

/// A cut text keeps within its bound.
pub proof fn cut_keeps_within_its_bound(s: Seq<char>, max_bytes: nat)
    ensures
        utf8_len(cut(s, max_bytes)) <= max_bytes,
{
    if utf8_len(s) <= max_bytes {
    } else if max_bytes < 14 {
        utf8_len_bounds(Seq::<char>::empty());
    } else {
        let room = (max_bytes - 14) as nat;
        fitting_prefix_is_the_longest(s, room);
        cut_marker_len();
        utf8_len_of_concatenation(fitting_prefix(s, room), cut_marker());
    }
}

/// Cutting a text that was already cut to the same bound changes nothing.
pub proof fn cut_is_idempotent(s: Seq<char>, max_bytes: nat)
    ensures
        cut(cut(s, max_bytes), max_bytes) == cut(s, max_bytes),
        !is_cut(cut(s, max_bytes), max_bytes),
{
    cut_keeps_within_its_bound(s, max_bytes);
}

/// Cuts `input` to at most `max_bytes` bytes, and says whether that dropped anything.
pub fn truncate_utf8(input: &str, max_bytes: usize) -> (r: (String, bool))
    ensures
        r.0@ == cut(input@, max_bytes as nat),
        r.1 == is_cut(input@, max_bytes as nat),
        utf8_len(r.0@) <= max_bytes,
{
    proof {
        cut_keeps_within_its_bound(input@, max_bytes as nat);
    }
    if byte_len(input) <= max_bytes {
        return (input.to_string(), false);
    }
    if max_bytes < 14 {
        return (String::new(), true);
    }
    let room: usize = max_bytes - 14;
    let chars = chars_of(input);
    let mut n: usize = 0;
    let mut used: usize = 0;
    assert(chars@.take(0) =~= seq![]);
    proof {
        utf8_len_bounds(Seq::<char>::empty());
    }
    while n < chars.len()
        invariant_except_break
            n <= chars.len(),
            chars@ == input@,
            used == utf8_len(chars@.take(n as int)),
            used <= room,
        ensures
            n <= chars.len(),
            utf8_len(chars@.take(n as int)) <= room,
            n < chars.len() ==> utf8_len(chars@.take(n + 1)) > room,
        decreases chars.len() - n,
    {
        let step: usize = width(chars[n]);
        proof {
            utf8_len_of_push(chars@.take(n as int), chars@[n as int]);
            assert(chars@.take(n as int).push(chars@[n as int]) =~= chars@.take(n + 1));
        }
        if step > room - used {
            break;
        }
        used += step;
        n += 1;
    }
    proof {
        lemma_fitting_is(chars@, room as nat, n as int);
    }
    let mut output = sub_text(&chars, 0, n);
    assert(chars@.subrange(0, n as int) =~= chars@.take(n as int));
    output.append("…[truncated]");
    (output, true)
}

} // verus!
