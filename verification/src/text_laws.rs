//! What holds of texts that are searched, trimmed, split and put together.

use crate::text::{
    alphanumeric, ends_with, first_at, has_part, is_blank, is_control, is_digit, is_white_space,
    joined, lemma_first_at, lemma_first_at_is, lines, lower_ascii, non_empty, occurs_at, pieces,
    runs, same_ignoring_case, starts_with, trim_end, trim_start, trimmed,
    utf8_len,
};
use crate::utf8::{cut, cut_keeps_within_its_bound, fitting, fitting_prefix_is_the_longest, is_cut};
use vstd::prelude::*;
use vstd::string::*;

verus! {

// ---------------------------------------------------------------------------
// Searching
// ---------------------------------------------------------------------------

/// A text contains a part wherever that stands in it, and only then: between any beginning and
/// any end, one of which or both may be empty.
pub proof fn parts_are_found_anywhere(before: Seq<char>, part: Seq<char>, after: Seq<char>)
    ensures
        has_part(before + part + after, part),
        starts_with(part + after, part),
        ends_with(before + part, part),
{
    let s = before + part + after;
    assert(s.subrange(before.len() as int, (before.len() + part.len()) as int) =~= part);
    assert(occurs_at(s, part, before.len() as int));
    assert((part + after).subrange(0, part.len() as int) =~= part);
    let e = before + part;
    assert(e.subrange(e.len() - part.len(), e.len() as int) =~= part);
}

/// A text that contains a part is that part between a beginning and an end.
pub proof fn found_parts_are_there(s: Seq<char>, part: Seq<char>)
    ensures
        has_part(s, part) ==> exists|before: Seq<char>, after: Seq<char>|
            s == #[trigger] (before + part + after),
        starts_with(s, part) ==> exists|after: Seq<char>| s == #[trigger] (part + after),
        ends_with(s, part) ==> exists|before: Seq<char>| s == #[trigger] (before + part),
{
    if has_part(s, part) {
        let at = choose|at: int| occurs_at(s, part, at);
        assert(s =~= s.take(at) + part + s.skip(at + part.len()));
    }
    if starts_with(s, part) {
        assert(s =~= part + s.skip(part.len() as int));
    }
    if ends_with(s, part) {
        assert(s =~= s.take(s.len() - part.len()) + part);
    }
}

/// What is part of a part is part of the whole.
pub proof fn parts_of_parts_are_parts(whole: Seq<char>, middle: Seq<char>, part: Seq<char>)
    requires
        has_part(whole, middle),
        has_part(middle, part),
    ensures
        has_part(whole, part),
{
    let a = choose|at: int| occurs_at(whole, middle, at);
    let b = choose|at: int| occurs_at(middle, part, at);
    assert(whole.subrange(a, a + middle.len()).subrange(b, b + part.len()) =~= whole.subrange(
        a + b,
        a + b + part.len(),
    ));
    assert(occurs_at(whole, part, a + b));
}

// ---------------------------------------------------------------------------
// Characters and case
// ---------------------------------------------------------------------------

/// Among the ASCII characters, white space is the tab, the line feed and what stands between
/// them and the carriage return, and the space; control characters are those below the space and
/// the last one; digits are the ten between `0` and `9`.
pub proof fn ascii_characters_are_told_apart(c: char)
    requires
        (c as u32) < 0x80,
    ensures
        is_white_space(c) <==> (c == '\t' || c == '\n' || c == '\u{b}' || c == '\u{c}' || c == '\r'
            || c == ' '),
        is_control(c) <==> (c < ' ' || c == '\u{7f}'),
        is_digit(c) <==> (c == '0' || c == '1' || c == '2' || c == '3' || c == '4' || c == '5' || c
            == '6' || c == '7' || c == '8' || c == '9'),
{
}

/// Outside ASCII, white space is what Unicode counts as such.
pub proof fn wide_spaces_are_white_space(c: char)
    requires
        (c as u32) >= 0x80,
    ensures
        is_white_space(c) <==> (c == '\u{85}' || c == '\u{a0}' || c == '\u{1680}' || '\u{2000}' <= c
            <= '\u{200a}' || c == '\u{2028}' || c == '\u{2029}' || c == '\u{202f}' || c
            == '\u{205f}' || c == '\u{3000}'),
        !is_digit(c),
{
}

/// The lower case of a text has the same characters in the same places, but for the letters `A`
/// to `Z`, each of which becomes the letter of the same place in the alphabet.
pub proof fn lower_case_changes_capital_letters_only(s: Seq<char>)
    ensures
        lower_ascii(s).len() == s.len(),
        lower_ascii(lower_ascii(s)) == lower_ascii(s),
        same_ignoring_case(s, lower_ascii(s)),
        forall|i: int|
            0 <= i < s.len() ==> if 'A' <= #[trigger] s[i] <= 'Z' {
                'a' <= lower_ascii(s)[i] <= 'z' && lower_ascii(s)[i] as int - 'a' as int
                    == s[i] as int - 'A' as int
            } else {
                lower_ascii(s)[i] == s[i]
            },
{
    assert(lower_ascii(lower_ascii(s)) =~= lower_ascii(s));
}

/// Texts that are equal up to case are equally long, and differ in nothing but letters.
pub proof fn equal_up_to_case_differs_in_letters_only(a: Seq<char>, b: Seq<char>)
    requires
        same_ignoring_case(a, b),
    ensures
        a.len() == b.len(),
        forall|i: int|
            0 <= i < a.len() ==> #[trigger] a[i] == b[i] || (a[i] as int - b[i] as int == 32 && 'A'
                <= b[i] <= 'Z') || (b[i] as int - a[i] as int == 32 && 'A' <= a[i] <= 'Z'),
{
    assert(lower_ascii(a).len() == a.len() && lower_ascii(b).len() == b.len());
    assert forall|i: int| 0 <= i < a.len() implies #[trigger] a[i] == b[i] || (a[i] as int
        - b[i] as int == 32 && 'A' <= b[i] <= 'Z') || (b[i] as int - a[i] as int == 32 && 'A'
        <= a[i] <= 'Z') by {
        assert(lower_ascii(a)[i] == lower_ascii(b)[i]);
    }
}

// ---------------------------------------------------------------------------
// White space
// ---------------------------------------------------------------------------

proof fn lemma_trim_start_of(blank: Seq<char>, s: Seq<char>)
    requires
        forall|i: int| 0 <= i < blank.len() ==> is_white_space(#[trigger] blank[i]),
        s.len() > 0 ==> !is_white_space(s[0]),
    ensures
        trim_start(blank + s) == s,
    decreases blank.len(),
{
    if blank.len() > 0 {
        let rest = blank.skip(1);
        assert((blank + s)[0] == blank[0]);
        assert((blank + s).subrange(1, (blank + s).len() as int) =~= rest + s);
        assert forall|i: int| 0 <= i < rest.len() implies is_white_space(#[trigger] rest[i]) by {
            assert(rest[i] == blank[i + 1]);
        }
        lemma_trim_start_of(rest, s);
    } else {
        assert(blank + s =~= s);
    }
}

proof fn lemma_trim_end_of(s: Seq<char>, blank: Seq<char>)
    requires
        forall|i: int| 0 <= i < blank.len() ==> is_white_space(#[trigger] blank[i]),
        s.len() > 0 ==> !is_white_space(s.last()),
    ensures
        trim_end(s + blank) == s,
    decreases blank.len(),
{
    if blank.len() > 0 {
        let rest = blank.drop_last();
        assert((s + blank).last() == blank.last());
        assert((s + blank).drop_last() =~= s + rest);
        assert forall|i: int| 0 <= i < rest.len() implies is_white_space(#[trigger] rest[i]) by {
            assert(rest[i] == blank[i]);
        }
        assert(is_white_space(blank[blank.len() - 1]));
        lemma_trim_end_of(s, rest);
    } else {
        assert(s + blank =~= s);
    }
}

/// Trimming takes white space off both ends, all of it, and nothing else.
pub proof fn trimming_takes_white_space_off(before: Seq<char>, s: Seq<char>, after: Seq<char>)
    requires
        forall|i: int| 0 <= i < before.len() ==> is_white_space(#[trigger] before[i]),
        forall|i: int| 0 <= i < after.len() ==> is_white_space(#[trigger] after[i]),
        s.len() > 0 ==> !is_white_space(s[0]) && !is_white_space(s[s.len() - 1]),
    ensures
        trimmed(before + s + after) == s,
{
    if s.len() > 0 {
        assert(before + s + after =~= before + (s + after));
        lemma_trim_start_of(before, s + after);
        lemma_trim_end_of(s, after);
    } else {
        let all = before + after;
        assert(before + s + after =~= all + s);
        assert forall|i: int| 0 <= i < all.len() implies is_white_space(#[trigger] all[i]) by {
            if i < before.len() {
                assert(all[i] == before[i]);
            } else {
                assert(all[i] == after[i - before.len()]);
            }
        }
        lemma_trim_start_of(all, s);
        assert(trim_end(s) == s);
    }
}

/// What is left of a text after trimming is empty, or begins and ends with something else than
/// white space; and it stands between nothing but white space.
pub proof fn trimmed_texts_begin_and_end_with_something(s: Seq<char>)
    ensures
        trimmed(s).len() > 0 ==> !is_white_space(trimmed(s)[0]) && !is_white_space(
            trimmed(s)[trimmed(s).len() - 1],
        ),
        exists|before: Seq<char>, after: Seq<char>|
            s == #[trigger] (before + trimmed(s) + after) && is_blank(before) && is_blank(after),
{
    let start = trim_start(s);
    let before = lemma_trim_start(s);
    let after = lemma_trim_end(start);
    assert(s =~= before + trimmed(s) + after);
    if trimmed(s).len() > 0 {
        assert(trimmed(s)[0] == start[0]);
    }
}

proof fn lemma_trim_start(s: Seq<char>) -> (before: Seq<char>)
    ensures
        s == before + trim_start(s),
        is_blank(before),
        trim_start(s).len() > 0 ==> !is_white_space(trim_start(s)[0]),
    decreases s.len(),
{
    if s.len() > 0 && is_white_space(s[0]) {
        let rest = s.subrange(1, s.len() as int);
        let more = lemma_trim_start(rest);
        let before = seq![s[0]] + more;
        assert(s =~= seq![s[0]] + (more + trim_start(rest)));
        assert(s =~= before + trim_start(s));
        assert forall|i: int| 0 <= i < before.len() implies is_white_space(#[trigger] before[i]) by {
            if i > 0 {
                assert(before[i] == more[i - 1]);
            }
        }
        before
    } else {
        assert(s =~= Seq::empty() + s);
        Seq::empty()
    }
}

proof fn lemma_trim_end(s: Seq<char>) -> (after: Seq<char>)
    ensures
        s == trim_end(s) + after,
        is_blank(after),
        trim_end(s).len() > 0 ==> !is_white_space(trim_end(s)[trim_end(s).len() - 1]),
    decreases s.len(),
{
    if s.len() > 0 && is_white_space(s.last()) {
        let head = s.drop_last();
        let more = lemma_trim_end(head);
        let after = more.push(s.last());
        assert(s =~= (trim_end(head) + more).push(s.last()));
        assert(s =~= trim_end(s) + after);
        assert forall|i: int| 0 <= i < after.len() implies is_white_space(#[trigger] after[i]) by {
            if i < more.len() {
                assert(after[i] == more[i]);
            }
        }
        after
    } else {
        assert(s =~= s + Seq::empty());
        Seq::empty()
    }
}

/// A text is blank exactly where both parts of it are, however it is parted; a single character
/// is blank where it is white space, and a text of none is blank.
pub proof fn blank_texts_have_blank_parts(a: Seq<char>, b: Seq<char>, c: char)
    ensures
        is_blank(a + b) <==> is_blank(a) && is_blank(b),
        is_blank(seq![c]) <==> is_white_space(c),
        is_blank(Seq::empty()),
{
    let s = a + b;
    if is_blank(s) {
        assert forall|i: int| 0 <= i < a.len() implies is_white_space(#[trigger] a[i]) by {
            assert(s[i] == a[i]);
        }
        assert forall|i: int| 0 <= i < b.len() implies is_white_space(#[trigger] b[i]) by {
            assert(s[a.len() + i] == b[i]);
        }
    }
    if is_blank(seq![c]) {
        assert(is_white_space(seq![c][0]));
    }
}

// ---------------------------------------------------------------------------
// Splitting and joining
// ---------------------------------------------------------------------------

/// A text is split where the separator stands: what has none is one piece, and what stands
/// before the first is the first piece.
pub proof fn pieces_end_at_separators(piece: Seq<char>, rest: Seq<char>, c: char)
    requires
        forall|i: int| 0 <= i < piece.len() ==> #[trigger] piece[i] != c,
    ensures
        pieces(piece, c) == seq![piece],
        pieces(piece + seq![c] + rest, c) == seq![piece] + pieces(rest, c),
{
    lemma_first_at_is(piece, c, piece.len() as int);
    let s = piece + seq![c] + rest;
    assert(s[piece.len() as int] == c);
    assert forall|k: int| 0 <= k < piece.len() implies s[k] != c by {
        assert(s[k] == piece[k]);
    }
    lemma_first_at_is(s, c, piece.len() as int);
    assert(s.subrange(0, piece.len() as int) =~= piece);
    assert(s.subrange(piece.len() as int + 1, s.len() as int) =~= rest);
}

/// Putting the pieces together again with the separator between them gives the text.
pub proof fn pieces_make_up_the_text(s: Seq<char>, c: char)
    ensures
        joined(pieces(s, c), seq![c]) == s,
        pieces(s, c).len() > 0,
        forall|i: int| 0 <= i < pieces(s, c).len() ==> !(#[trigger] pieces(s, c)[i]).contains(c),
    decreases s.len(),
{
    lemma_first_at(s, c);
    let at = first_at(s, c);
    if at < s.len() {
        let piece = s.subrange(0, at);
        let rest = s.subrange(at + 1, s.len() as int);
        pieces_make_up_the_text(rest, c);
        lemma_joined_front(piece, pieces(rest, c), seq![c]);
        assert(piece + seq![c] + rest =~= s);
        assert forall|i: int| 0 <= i < pieces(s, c).len() implies !(#[trigger] pieces(
            s,
            c,
        )[i]).contains(c) by {
            if i > 0 {
                assert(pieces(s, c)[i] == pieces(rest, c)[i - 1]);
            }
        }
    } else {
        assert(pieces(s, c)[0] == s);
    }
}

proof fn lemma_joined_front(first: Seq<char>, parts: Seq<Seq<char>>, separator: Seq<char>)
    requires
        parts.len() > 0,
    ensures
        joined(seq![first] + parts, separator) == first + separator + joined(parts, separator),
    decreases parts.len(),
{
    let all = seq![first] + parts;
    assert(all.last() == parts.last());
    if parts.len() > 1 {
        lemma_joined_front(first, parts.drop_last(), separator);
        assert(all.drop_last() =~= seq![first] + parts.drop_last());
        assert(joined(all, separator) =~= first + separator + joined(parts, separator));
    } else {
        assert(all.drop_last() =~= seq![first]);
        assert(joined(all.drop_last(), separator) == first);
        assert(joined(parts, separator) == parts[0]);
    }
}

/// Texts are joined in order, with the separator between every two and nowhere else.
pub proof fn joining_puts_separators_between(a: Seq<Seq<char>>, b: Seq<Seq<char>>, c: Seq<char>)
    ensures
        joined(Seq::empty(), c) == Seq::<char>::empty(),
        a.len() == 1 ==> joined(a, c) == a[0],
        a.len() > 0 && b.len() > 0 ==> joined(a + b, c) == joined(a, c) + c + joined(b, c),
    decreases a.len(),
{
    if a.len() > 0 && b.len() > 0 {
        let first = a[0];
        let rest = a.skip(1);
        if rest.len() == 0 {
            assert(a =~= seq![first]);
            lemma_joined_front(first, b, c);
        } else {
            joining_puts_separators_between(rest, b, c);
            assert(a + b =~= seq![first] + (rest + b));
            assert(a =~= seq![first] + rest);
            lemma_joined_front(first, rest + b, c);
            lemma_joined_front(first, rest, c);
            assert(joined(a + b, c) =~= joined(a, c) + c + joined(b, c));
        }
    }
}

/// A line ends at a line feed, with or without a carriage return before it; what follows the last
/// line feed is a line of its own, unless nothing does.
pub proof fn lines_end_at_line_feeds(line: Seq<char>, rest: Seq<char>)
    requires
        forall|i: int| 0 <= i < line.len() ==> #[trigger] line[i] != '\n',
    ensures
        lines(Seq::empty()) == Seq::<Seq<char>>::empty(),
        line.len() > 0 ==> lines(line) == seq![line],
        line.len() == 0 || line[line.len() - 1] != '\r' ==> lines(line + seq!['\n'] + rest)
            == seq![line] + lines(rest),
        lines(line + seq!['\r', '\n'] + rest) == seq![line] + lines(rest),
{
    lemma_first_at_is(line, '\n', line.len() as int);
    let s = line + seq!['\n'] + rest;
    assert(s[line.len() as int] == '\n');
    assert forall|k: int| 0 <= k < line.len() implies s[k] != '\n' by {
        assert(s[k] == line[k]);
    }
    lemma_first_at_is(s, '\n', line.len() as int);
    assert(s.subrange(0, line.len() as int) =~= line);
    assert(s.subrange(line.len() as int + 1, s.len() as int) =~= rest);
    let t = line + seq!['\r', '\n'] + rest;
    let n = line.len() as int;
    assert(t[n] == '\r' && t[n + 1] == '\n');
    assert forall|k: int| 0 <= k < n + 1 implies t[k] != '\n' by {
        if k < n {
            assert(t[k] == line[k]);
        }
    }
    lemma_first_at_is(t, '\n', n + 1);
    let with_return = t.subrange(0, n + 1);
    assert(with_return.last() == '\r');
    assert(with_return.drop_last() =~= line);
    assert(t.subrange(n + 2, t.len() as int) =~= rest);
}

/// The lines of two texts that stand one after the other, the first of which ends with a line
/// feed, are the lines of the first and those of the second.
pub proof fn lines_of_whole_lines_add_up(a: Seq<char>, b: Seq<char>)
    requires
        a.len() == 0 || a[a.len() - 1] == '\n',
    ensures
        lines(a + b) == lines(a) + lines(b),
    decreases a.len(),
{
    if a.len() == 0 {
        assert(a + b =~= b);
        assert(lines(a) + lines(b) =~= lines(b));
    } else {
        lemma_first_at(a, '\n');
        let at = first_at(a, '\n');
        assert(at < a.len()) by {
            if at == a.len() {
                assert(a[a.len() - 1] != '\n');
            }
        }
        let rest = a.subrange(at + 1, a.len() as int);
        lines_of_whole_lines_add_up(rest, b);
        let s = a + b;
        assert(s[at] == '\n');
        assert forall|k: int| 0 <= k < at implies s[k] != '\n' by {
            assert(s[k] == a[k]);
        }
        lemma_first_at_is(s, '\n', at);
        assert(s.subrange(0, at) =~= a.subrange(0, at));
        assert(s.subrange(at + 1, s.len() as int) =~= rest + b);
        assert(lines(a + b) =~= lines(a) + lines(b));
    }
}

/// The texts that are not empty are kept, in their order.
pub proof fn empty_texts_are_dropped(items: Seq<Seq<char>>)
    ensures
        non_empty(items) == items.filter(|item: Seq<char>| item.len() > 0),
    decreases items.len(),
{
    reveal(Seq::filter);
    if items.len() > 0 {
        empty_texts_are_dropped(items.drop_last());
    }
}

/// The words of a text are what stands between characters that are neither letters nor digits:
/// a word grows by a letter or a digit, and ends at anything else.
pub proof fn words_end_at_other_characters(word: Seq<char>, c: char, rest: Seq<char>)
    requires
        forall|i: int| 0 <= i < word.len() ==> alphanumeric(#[trigger] word[i]),
    ensures
        runs(word) == seq![word],
        !alphanumeric(c) ==> runs(word + seq![c] + rest) == seq![word] + runs(rest),
    decreases word.len() + rest.len(),
{
    if word.len() > 0 {
        let head = word.drop_last();
        assert forall|i: int| 0 <= i < head.len() implies alphanumeric(#[trigger] head[i]) by {
            assert(head[i] == word[i]);
        }
        words_end_at_other_characters(head, c, Seq::empty());
        assert(alphanumeric(word[word.len() - 1]));
        assert(runs(word) =~= seq![head.push(word.last())]);
        assert(head.push(word.last()) =~= word);
    } else {
        assert(word =~= Seq::<char>::empty());
    }
    if !alphanumeric(c) {
        let s = word + seq![c] + rest;
        if rest.len() == 0 {
            assert(s.last() == c);
            assert(s.drop_last() =~= word);
            assert(rest =~= Seq::<char>::empty());
            assert(runs(s) =~= seq![word] + runs(rest));
        } else {
            let short = rest.drop_last();
            words_end_at_other_characters(word, c, short);
            assert(s.last() == rest.last());
            assert(s.drop_last() =~= word + seq![c] + short);
            let before = runs(short);
            lemma_runs_are_some(short);
            assert((seq![word] + before).drop_last() =~= seq![word] + before.drop_last());
            assert((seq![word] + before).last() == before.last());
            assert(runs(s) =~= seq![word] + runs(rest));
        }
    }
}

proof fn lemma_runs_are_some(s: Seq<char>)
    ensures
        runs(s).len() > 0,
    decreases s.len(),
{
    if s.len() > 0 {
        lemma_runs_are_some(s.drop_last());
    }
}

// ---------------------------------------------------------------------------
// Cutting
// ---------------------------------------------------------------------------

/// A text that fits is left alone. Of one that does not, a beginning is kept, which is followed by
/// the marker; no longer beginning would leave room for it.
pub proof fn cut_texts_keep_their_beginning(s: Seq<char>, max_bytes: nat)
    ensures
        utf8_len(s) <= max_bytes ==> cut(s, max_bytes) == s && !is_cut(s, max_bytes),
        utf8_len(s) > max_bytes ==> is_cut(s, max_bytes) && cut(s, max_bytes) != s,
        utf8_len(s) > max_bytes && max_bytes >= 14 ==> exists|n: int|
            0 <= n < s.len() && cut(s, max_bytes) == #[trigger] s.take(n) + "…[truncated]"@
                && utf8_len(s.take(n)) + 14 <= max_bytes && utf8_len(s.take(n + 1)) + 14
                > max_bytes,
        max_bytes < 14 && utf8_len(s) > max_bytes ==> cut(s, max_bytes).len() == 0,
{
    cut_keeps_within_its_bound(s, max_bytes);
    if utf8_len(s) > max_bytes && max_bytes >= 14 {
        let room = (max_bytes - 14) as nat;
        fitting_prefix_is_the_longest(s, room);
        let n = fitting(s, room) as int;
        if n == s.len() {
            assert(s.take(n) =~= s);
        }
        assert(cut(s, max_bytes) == s.take(n) + "…[truncated]"@);
    }
}

} // verus!
