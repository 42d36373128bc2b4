//! Text as a sequence of characters: classification, searching, splitting,
//! trimming and case folding.

use vstd::prelude::*;
use vstd::std_specs::iter::IteratorSpec;
use vstd::string::*;
use vstd::utf8::*;

verus! {

/// Appends one character.
pub assume_specification[ String::push ](text: &mut String, c: char)
    ensures
        final(text)@ == old(text)@.push(c),
;

/// What `str::to_lowercase` gives for `s`: Unicode's lower-case mapping.
pub uninterp spec fn unicode_lower(s: Seq<char>) -> Seq<char>;

/// `str::to_lowercase`: the lower-case equivalent of a text. It depends on the text alone,
/// and on ASCII text it changes the letters `A` to `Z` only.
pub assume_specification[ str::to_lowercase ](s: &str) -> (r: String)
    ensures
        r@ == unicode_lower(s@),
        is_ascii_chars(s@) ==> r@ == lower_ascii(s@),
;

/// What `char::is_alphanumeric` says of `c`: Unicode's `Alphabetic` or a numeric category.
pub uninterp spec fn alphanumeric(c: char) -> bool;

/// `char::is_alphanumeric`: it depends on the character alone, and among the ASCII
/// characters it holds of letters and digits.
pub assume_specification[ char::is_alphanumeric ](c: char) -> (r: bool)
    ensures
        r == alphanumeric(c),
        (c as u32) < 0x80 ==> r == (is_digit(c) || 'a' <= lower_ascii_char(c) <= 'z'),
;

/// The characters of every text in `items`.
pub open spec fn texts(items: Seq<String>) -> Seq<Seq<char>> {
    items.map_values(|item: String| item@)
}

pub broadcast proof fn lemma_texts_push(items: Seq<String>, item: String)
    ensures
        #[trigger] texts(items.push(item)) == texts(items).push(item@),
{
    assert(texts(items.push(item)) =~= texts(items).push(item@));
}

/// The characters of an optional text.
pub open spec fn optional_text(item: Option<String>) -> Option<Seq<char>> {
    match item {
        Some(text) => Some(text@),
        None => None,
    }
}

/// The characters of `s`, indexable.
pub fn chars_of(s: &str) -> (r: Vec<char>)
    ensures
        r@ == s@,
{
    let mut r: Vec<char> = Vec::new();
    for c in iter: s.chars()
        invariant
            r@ == iter.seq().take(iter.index()),
            iter.seq() == s@,
    {
        r.push(c);
        assert(r@ =~= iter.seq().take(iter.index() + 1));
    }
    assert(r@ =~= s@);
    r
}

/// The text from character `from` up to character `to`.
pub fn sub_text(chars: &Vec<char>, from: usize, to: usize) -> (r: String)
    requires
        from <= to <= chars.len(),
    ensures
        r@ == chars@.subrange(from as int, to as int),
{
    let mut r = String::new();
    let mut i: usize = from;
    while i < to
        invariant
            from <= i <= to <= chars.len(),
            r@ == chars@.subrange(from as int, i as int),
        decreases to - i,
    {
        r.push(chars[i]);
        assert(chars@.subrange(from as int, i + 1) =~= chars@.subrange(from as int, i as int).push(
            chars@[i as int],
        ));
        i += 1;
    }
    r
}

/// The number of bytes that `s` takes in UTF-8.
pub open spec fn utf8_len(s: Seq<char>) -> nat {
    encode_utf8(s).len()
}

pub fn byte_len(s: &str) -> (r: usize)
    ensures
        r == utf8_len(s@),
{
    s.as_bytes().len()
}

/// Whether both texts hold the same characters.
pub fn same_text(a: &str, b: &str) -> (r: bool)
    ensures
        r == (a@ == b@),
{
    let mut x = a.chars();
    let mut y = b.chars();
    loop
        invariant
            x.obeys_prophetic_iter_laws(),
            y.obeys_prophetic_iter_laws(),
            x.decrease() is Some,
            (a@ == b@) == (x.remaining() == y.remaining()),
        decreases x.decrease()->0,
    {
        let ghost p = x.remaining();
        let ghost q = y.remaining();
        let c = x.next();
        let d = y.next();
        match (c, d) {
            (None, None) => {
                assert(p =~= q);
                return true;
            },
            (Some(c), Some(d)) => {
                if c != d {
                    return false;
                }
                assert(p =~= seq![c] + p.drop_first());
                assert(q =~= seq![d] + q.drop_first());
            },
            _ => {
                return false;
            },
        }
    }
}

pub fn same_chars(x: &Vec<char>, y: &Vec<char>) -> (r: bool)
    ensures
        r == (x@ == y@),
{
    if x.len() != y.len() {
        return false;
    }
    let mut i: usize = 0;
    while i < x.len()
        invariant
            i <= x.len() == y.len(),
            forall|k: int| 0 <= k < i ==> x@[k] == y@[k],
        decreases x.len() - i,
    {
        if x[i] != y[i] {
            return false;
        }
        i += 1;
    }
    assert(x@ =~= y@);
    true
}

/// Unicode's `White_Space` property.
pub open spec fn is_white_space(c: char) -> bool {
    let u = c as u32;
    ||| 0x9 <= u <= 0xD
    ||| u == 0x20
    ||| u == 0x85
    ||| u == 0xA0
    ||| u == 0x1680
    ||| 0x2000 <= u <= 0x200A
    ||| u == 0x2028
    ||| u == 0x2029
    ||| u == 0x202F
    ||| u == 0x205F
    ||| u == 0x3000
}

pub fn white_space(c: char) -> (r: bool)
    ensures
        r == is_white_space(c),
{
    let u: u32 = c as u32;
    (0x9 <= u && u <= 0xD) || u == 0x20 || u == 0x85 || u == 0xA0 || u == 0x1680 || (0x2000 <= u && u
        <= 0x200A) || u == 0x2028 || u == 0x2029 || u == 0x202F || u == 0x205F || u == 0x3000
}

/// Unicode's general category `Cc`.
pub open spec fn is_control(c: char) -> bool {
    let u = c as u32;
    u < 0x20 || 0x7F <= u <= 0x9F
}

pub fn control(c: char) -> (r: bool)
    ensures
        r == is_control(c),
{
    let u: u32 = c as u32;
    u < 0x20 || (0x7F <= u && u <= 0x9F)
}

pub open spec fn is_digit(c: char) -> bool {
    '0' <= c <= '9'
}

pub fn digit(c: char) -> (r: bool)
    ensures
        r == is_digit(c),
{
    '0' <= c && c <= '9'
}

/// One ASCII letter in lower case; any other character as it is.
pub open spec fn lower_ascii_char(c: char) -> char {
    if 'A' <= c <= 'Z' {
        (c as u8 + 32) as u8 as char
    } else {
        c
    }
}

pub fn to_lower_ascii_char(c: char) -> (r: char)
    ensures
        r == lower_ascii_char(c),
{
    if 'A' <= c && c <= 'Z' {
        (c as u8 + 32) as char
    } else {
        c
    }
}

/// A text with its ASCII letters in lower case.
pub open spec fn lower_ascii(s: Seq<char>) -> Seq<char> {
    s.map_values(|c: char| lower_ascii_char(c))
}

pub fn to_lower_ascii(s: &Vec<char>) -> (r: Vec<char>)
    ensures
        r@ == lower_ascii(s@),
{
    let mut r: Vec<char> = Vec::new();
    let mut i: usize = 0;
    while i < s.len()
        invariant
            i <= s.len(),
            r@ == lower_ascii(s@.take(i as int)),
        decreases s.len() - i,
    {
        r.push(to_lower_ascii_char(s[i]));
        i += 1;
        assert(r@ =~= lower_ascii(s@.take(i as int)));
    }
    assert(s@.take(i as int) =~= s@);
    r
}

/// Equality up to the case of ASCII letters.
pub open spec fn same_ignoring_case(a: Seq<char>, b: Seq<char>) -> bool {
    lower_ascii(a) == lower_ascii(b)
}

pub fn eq_ignoring_case(a: &str, b: &str) -> (r: bool)
    ensures
        r == same_ignoring_case(a@, b@),
{
    let x = to_lower_ascii(&chars_of(a));
    let y = to_lower_ascii(&chars_of(b));
    same_chars(&x, &y)
}

/// `s` without the white space that it begins with.
pub open spec fn trim_start(s: Seq<char>) -> Seq<char>
    decreases s.len(),
{
    if s.len() > 0 && is_white_space(s[0]) {
        trim_start(s.subrange(1, s.len() as int))
    } else {
        s
    }
}

/// `s` without the white space that it ends with.
pub open spec fn trim_end(s: Seq<char>) -> Seq<char>
    decreases s.len(),
{
    if s.len() > 0 && is_white_space(s.last()) {
        trim_end(s.drop_last())
    } else {
        s
    }
}

/// `s` without the white space around it.
pub open spec fn trimmed(s: Seq<char>) -> Seq<char> {
    trim_end(trim_start(s))
}

/// The bounds of what is left of `chars` once the white space around it is gone.
fn trim_bounds(chars: &Vec<char>) -> (r: (usize, usize))
    ensures
        r.0 <= r.1 <= chars.len(),
        chars@.subrange(r.0 as int, r.1 as int) == trimmed(chars@),
{
    let mut from: usize = 0;
    assert(chars@.subrange(0, chars@.len() as int) =~= chars@);
    while from < chars.len() && white_space(chars[from])
        invariant
            from <= chars.len(),
            trim_start(chars@.subrange(from as int, chars@.len() as int)) == trim_start(chars@),
        decreases chars.len() - from,
    {
        let ghost rest = chars@.subrange(from as int, chars@.len() as int);
        assert(rest.subrange(1, rest.len() as int) =~= chars@.subrange(
            from + 1,
            chars@.len() as int,
        ));
        from += 1;
    }
    let ghost rest = chars@.subrange(from as int, chars@.len() as int);
    assert(trim_start(chars@) == rest);
    let mut to: usize = chars.len();
    while from < to && white_space(chars[to - 1])
        invariant
            from <= to <= chars.len(),
            trim_end(chars@.subrange(from as int, to as int)) == trim_end(rest),
        decreases to,
    {
        assert(chars@.subrange(from as int, to as int).drop_last() =~= chars@.subrange(
            from as int,
            to - 1,
        ));
        to -= 1;
    }
    (from, to)
}

pub fn trim(s: &str) -> (r: String)
    ensures
        r@ == trimmed(s@),
{
    let chars = chars_of(s);
    let (from, to) = trim_bounds(&chars);
    sub_text(&chars, from, to)
}

/// Whether nothing but white space is in `s`.
pub open spec fn is_blank(s: Seq<char>) -> bool {
    forall|i: int| 0 <= i < s.len() ==> is_white_space(#[trigger] s[i])
}

pub proof fn lemma_blank_trims_to_nothing(s: Seq<char>)
    ensures
        is_blank(s) <==> trimmed(s).len() == 0,
    decreases s.len(),
{
    if s.len() > 0 {
        if is_white_space(s[0]) {
            let rest = s.subrange(1, s.len() as int);
            lemma_blank_trims_to_nothing(rest);
            assert(is_blank(s) <==> is_blank(rest)) by {
                if is_blank(rest) {
                    assert forall|i: int| 0 <= i < s.len() implies is_white_space(#[trigger] s[i]) by {
                        if i > 0 {
                            assert(rest[i - 1] == s[i]);
                        }
                    }
                }
                if is_blank(s) {
                    assert forall|i: int| 0 <= i < rest.len() implies is_white_space(
                        #[trigger] rest[i],
                    ) by {
                        assert(rest[i] == s[i + 1]);
                    }
                }
            }
        } else {
            lemma_trim_end_keeps(s, 0);
        }
    }
}

/// Trimming the end keeps everything up to a character that is no white space.
proof fn lemma_trim_end_keeps(s: Seq<char>, at: int)
    requires
        0 <= at < s.len(),
        !is_white_space(s[at]),
    ensures
        trim_end(s).len() > at,
    decreases s.len(),
{
    if is_white_space(s.last()) {
        assert(at < s.len() - 1);
        lemma_trim_end_keeps(s.drop_last(), at);
    }
}

pub fn blank(s: &str) -> (r: bool)
    ensures
        r == is_blank(s@),
        r == (trimmed(s@).len() == 0),
{
    let chars = chars_of(s);
    let (from, to) = trim_bounds(&chars);
    proof {
        lemma_blank_trims_to_nothing(s@);
    }
    from == to
}

/// Whether `part` stands in `s` from character `at` on.
pub open spec fn occurs_at(s: Seq<char>, part: Seq<char>, at: int) -> bool {
    0 <= at && at + part.len() <= s.len() && s.subrange(at, at + part.len()) == part
}

/// Whether `part` stands anywhere in `s`.
pub open spec fn has_part(s: Seq<char>, part: Seq<char>) -> bool {
    exists|at: int| occurs_at(s, part, at)
}

pub open spec fn starts_with(s: Seq<char>, part: Seq<char>) -> bool {
    occurs_at(s, part, 0)
}

pub open spec fn ends_with(s: Seq<char>, part: Seq<char>) -> bool {
    occurs_at(s, part, s.len() - part.len())
}

pub fn found_at(s: &Vec<char>, part: &Vec<char>, at: usize) -> (r: bool)
    ensures
        r == occurs_at(s@, part@, at as int),
{
    if at > s.len() || part.len() > s.len() - at {
        return false;
    }
    let mut i: usize = 0;
    while i < part.len()
        invariant
            i <= part.len(),
            at + part.len() <= s.len(),
            forall|k: int| 0 <= k < i ==> s@[at + k] == part@[k],
        decreases part.len() - i,
    {
        if s[at + i] != part[i] {
            assert(s@.subrange(at as int, at + part@.len())[i as int] != part@[i as int]);
            return false;
        }
        i += 1;
    }
    assert(s@.subrange(at as int, at + part@.len()) =~= part@);
    true
}

pub fn chars_have_part(s: &Vec<char>, part: &Vec<char>) -> (r: bool)
    ensures
        r == has_part(s@, part@),
{
    if part.len() > s.len() {
        return false;
    }
    let mut at: usize = 0;
    while at <= s.len() - part.len()
        invariant
            part.len() <= s.len(),
            at <= s.len() - part.len() + 1,
            forall|k: int| 0 <= k < at ==> !occurs_at(s@, part@, k),
        decreases s.len() + 1 - at,
    {
        if found_at(s, part, at) {
            return true;
        }
        if at == s.len() - part.len() {
            return false;
        }
        at += 1;
    }
    false
}

pub fn starts_with_text(s: &str, part: &str) -> (r: bool)
    ensures
        r == starts_with(s@, part@),
{
    found_at(&chars_of(s), &chars_of(part), 0)
}

pub fn ends_with_text(s: &str, part: &str) -> (r: bool)
    ensures
        r == ends_with(s@, part@),
{
    let x = chars_of(s);
    let y = chars_of(part);
    y.len() <= x.len() && found_at(&x, &y, x.len() - y.len())
}

pub fn contains_char(s: &str, c: char) -> (r: bool)
    ensures
        r == s@.contains(c),
{
    let chars = chars_of(s);
    let mut i: usize = 0;
    while i < chars.len()
        invariant
            i <= chars.len(),
            chars@ == s@,
            forall|k: int| 0 <= k < i ==> chars@[k] != c,
        decreases chars.len() - i,
    {
        if chars[i] == c {
            assert(s@[i as int] == c);
            return true;
        }
        i += 1;
    }
    false
}

/// Where `c` first stands in `s`; the length of `s` if it does not.
pub open spec fn first_at(s: Seq<char>, c: char) -> int
    decreases s.len(),
{
    if s.len() == 0 || s[0] == c {
        0
    } else {
        1 + first_at(s.subrange(1, s.len() as int), c)
    }
}

pub proof fn lemma_first_at(s: Seq<char>, c: char)
    ensures
        0 <= first_at(s, c) <= s.len(),
        first_at(s, c) < s.len() ==> s[first_at(s, c)] == c,
        forall|k: int| 0 <= k < first_at(s, c) ==> s[k] != c,
    decreases s.len(),
{
    if s.len() > 0 && s[0] != c {
        let rest = s.subrange(1, s.len() as int);
        lemma_first_at(rest, c);
        assert forall|k: int| 0 <= k < first_at(s, c) implies s[k] != c by {
            if k > 0 {
                assert(s[k] == rest[k - 1]);
            }
        }
    }
}

pub proof fn lemma_first_at_is(s: Seq<char>, c: char, at: int)
    requires
        0 <= at <= s.len(),
        at < s.len() ==> s[at] == c,
        forall|k: int| 0 <= k < at ==> s[k] != c,
    ensures
        first_at(s, c) == at,
{
    lemma_first_at(s, c);
    let f = first_at(s, c);
    if f < at {
        assert(s[f] != c);
    }
    if at < f {
        assert(s[at] != c);
    }
}

/// The pieces of `s` between the occurrences of `c`.
pub open spec fn pieces(s: Seq<char>, c: char) -> Seq<Seq<char>>
    decreases s.len(),
{
    proof {
        lemma_first_at(s, c);
    }
    let at = first_at(s, c);
    if at >= s.len() {
        seq![s]
    } else {
        seq![s.subrange(0, at)] + pieces(s.subrange(at + 1, s.len() as int), c)
    }
}

pub fn split_on(s: &str, c: char) -> (r: Vec<String>)
    ensures
        texts(r@) == pieces(s@, c),
        r.len() > 0,
{
    broadcast use lemma_texts_push;

    let chars = chars_of(s);
    let mut r: Vec<String> = Vec::new();
    let mut start: usize = 0;
    let mut i: usize = 0;
    proof {
        assert(s@.subrange(0, s@.len() as int) =~= s@);
        assert(texts(r@) + pieces(s@, c) =~= pieces(s@, c));
    }
    while i < chars.len()
        invariant
            start <= i <= chars.len(),
            chars@ == s@,
            forall|k: int| start <= k < i ==> s@[k] != c,
            texts(r@) + pieces(s@.subrange(start as int, s@.len() as int), c) == pieces(s@, c),
        decreases chars.len() - i,
    {
        if chars[i] == c {
            let ghost rest = s@.subrange(start as int, s@.len() as int);
            let ghost before = texts(r@);
            r.push(sub_text(&chars, start, i));
            proof {
                lemma_first_at_is(rest, c, i - start);
                assert(rest.subrange(0, i - start) =~= s@.subrange(start as int, i as int));
                assert(rest.subrange(i - start + 1, rest.len() as int) =~= s@.subrange(
                    i + 1,
                    s@.len() as int,
                ));
                assert(texts(r@) + pieces(s@.subrange(i + 1, s@.len() as int), c) =~= before
                    + pieces(rest, c));
            }
            start = i + 1;
        }
        i += 1;
    }
    let ghost rest = s@.subrange(start as int, s@.len() as int);
    let ghost before = texts(r@);
    r.push(sub_text(&chars, start, chars.len()));
    proof {
        lemma_first_at_is(rest, c, rest.len() as int);
        assert(texts(r@) =~= before + pieces(rest, c));
    }
    r
}

/// `s` without the one carriage return at its end, if there is one.
pub open spec fn without_return(s: Seq<char>) -> Seq<char> {
    if s.len() > 0 && s.last() == '\r' {
        s.drop_last()
    } else {
        s
    }
}

/// The lines of `s`. Each ends at a line feed, whose preceding carriage return is no
/// part of the line; what follows the last line feed is a line unless it is empty.
pub open spec fn lines(s: Seq<char>) -> Seq<Seq<char>>
    decreases s.len(),
{
    proof {
        lemma_first_at(s, '\n');
    }
    let at = first_at(s, '\n');
    if s.len() == 0 {
        seq![]
    } else if at >= s.len() {
        seq![s]
    } else {
        seq![without_return(s.subrange(0, at))] + lines(s.subrange(at + 1, s.len() as int))
    }
}

pub fn split_lines(s: &str) -> (r: Vec<String>)
    ensures
        texts(r@) == lines(s@),
{
    broadcast use lemma_texts_push;

    let chars = chars_of(s);
    let mut r: Vec<String> = Vec::new();
    let mut start: usize = 0;
    let mut i: usize = 0;
    proof {
        assert(s@.subrange(0, s@.len() as int) =~= s@);
        assert(texts(r@) + lines(s@) =~= lines(s@));
    }
    while i < chars.len()
        invariant
            start <= i <= chars.len(),
            chars@ == s@,
            forall|k: int| start <= k < i ==> s@[k] != '\n',
            texts(r@) + lines(s@.subrange(start as int, s@.len() as int)) == lines(s@),
        decreases chars.len() - i,
    {
        if chars[i] == '\n' {
            let ghost rest = s@.subrange(start as int, s@.len() as int);
            let ghost before = texts(r@);
            let end: usize = if i > start && chars[i - 1] == '\r' {
                i - 1
            } else {
                i
            };
            r.push(sub_text(&chars, start, end));
            proof {
                lemma_first_at_is(rest, '\n', i - start);
                assert(rest.subrange(0, i - start) =~= s@.subrange(start as int, i as int));
                assert(without_return(rest.subrange(0, i - start)) =~= s@.subrange(
                    start as int,
                    end as int,
                ));
                assert(rest.subrange(i - start + 1, rest.len() as int) =~= s@.subrange(
                    i + 1,
                    s@.len() as int,
                ));
                assert(texts(r@) + lines(s@.subrange(i + 1, s@.len() as int)) =~= before + lines(
                    rest,
                ));
            }
            start = i + 1;
        }
        i += 1;
    }
    let ghost rest = s@.subrange(start as int, s@.len() as int);
    let ghost before = texts(r@);
    proof {
        lemma_first_at_is(rest, '\n', rest.len() as int);
    }
    if start < chars.len() {
        r.push(sub_text(&chars, start, chars.len()));
        assert(texts(r@) =~= before + lines(rest));
    } else {
        assert(texts(r@) =~= before + lines(rest));
    }
    r
}

/// The texts of `parts` one after the other, with `separator` between them.
pub open spec fn joined(parts: Seq<Seq<char>>, separator: Seq<char>) -> Seq<char>
    decreases parts.len(),
{
    if parts.len() == 0 {
        seq![]
    } else if parts.len() == 1 {
        parts[0]
    } else {
        joined(parts.drop_last(), separator) + separator + parts.last()
    }
}

pub fn join(parts: &Vec<String>, separator: &str) -> (r: String)
    ensures
        r@ == joined(texts(parts@), separator@),
{
    let mut r = String::new();
    let mut i: usize = 0;
    while i < parts.len()
        invariant
            i <= parts.len(),
            r@ == joined(texts(parts@).take(i as int), separator@),
        decreases parts.len() - i,
    {
        if i > 0 {
            r.append(separator);
        }
        r.append(&parts[i]);
        proof {
            let now = texts(parts@).take(i + 1);
            assert(now.drop_last() =~= texts(parts@).take(i as int));
            assert(now.last() == parts@[i as int]@);
            if i == 0 {
                assert(r@ =~= parts@[0]@);
            }
        }
        i += 1;
    }
    assert(texts(parts@).take(i as int) =~= texts(parts@));
    r
}

/// The maximal runs of alphanumeric characters in `s`, with an empty run between two
/// separators that stand next to each other.
pub open spec fn runs(s: Seq<char>) -> Seq<Seq<char>>
    decreases s.len(),
{
    if s.len() == 0 {
        seq![s]
    } else {
        let before = runs(s.drop_last());
        if alphanumeric(s.last()) {
            before.drop_last().push(before.last().push(s.last()))
        } else {
            before.push(seq![])
        }
    }
}

pub fn split_runs(s: &str) -> (r: Vec<String>)
    ensures
        texts(r@) == runs(s@),
{
    let chars = chars_of(s);
    let mut done: Vec<String> = Vec::new();
    let mut last = String::new();
    let mut i: usize = 0;
    proof {
        assert(texts(done@).push(last@) =~= seq![Seq::<char>::empty()]);
        assert(s@.take(0) =~= seq![]);
    }
    while i < chars.len()
        invariant
            i <= chars.len(),
            chars@ == s@,
            texts(done@).push(last@) == runs(s@.take(i as int)),
        decreases chars.len() - i,
    {
        let c = chars[i];
        let ghost before = runs(s@.take(i as int));
        proof {
            assert(s@.take(i + 1).drop_last() =~= s@.take(i as int));
            assert(before.drop_last() =~= texts(done@));
            assert(before.last() == last@);
        }
        if c.is_alphanumeric() {
            last.push(c);
            assert(texts(done@).push(last@) =~= runs(s@.take(i + 1)));
        } else {
            let ghost kept = texts(done@).push(last@);
            done.push(last);
            last = String::new();
            assert(texts(done@) =~= kept);
            assert(texts(done@).push(last@) =~= runs(s@.take(i + 1)));
        }
        i += 1;
    }
    assert(s@.take(i as int) =~= s@);
    let ghost kept = texts(done@).push(last@);
    done.push(last);
    assert(texts(done@) =~= kept);
    done
}

/// Whether one of `items` is `s`.
pub fn any_same(items: &Vec<String>, s: &str) -> (r: bool)
    ensures
        r == texts(items@).contains(s@),
{
    let mut i: usize = 0;
    while i < items.len()
        invariant
            i <= items.len(),
            forall|k: int| 0 <= k < i ==> #[trigger] texts(items@)[k] != s@,
        decreases items.len() - i,
    {
        assert(texts(items@)[i as int] == items@[i as int]@);
        if same_text(&items[i], s) {
            return true;
        }
        i += 1;
    }
    false
}

/// The texts of `items` that are not empty.
pub open spec fn non_empty(items: Seq<Seq<char>>) -> Seq<Seq<char>>
    decreases items.len(),
{
    if items.len() == 0 {
        items
    } else {
        let before = non_empty(items.drop_last());
        if items.last().len() == 0 {
            before
        } else {
            before.push(items.last())
        }
    }
}

pub fn drop_empty(items: &Vec<String>) -> (r: Vec<String>)
    ensures
        texts(r@) == non_empty(texts(items@)),
{
    broadcast use lemma_texts_push;

    let mut r: Vec<String> = Vec::new();
    let mut i: usize = 0;
    proof {
        assert(texts(r@) =~= non_empty(texts(items@).take(0)));
    }
    while i < items.len()
        invariant
            i <= items.len(),
            texts(r@) == non_empty(texts(items@).take(i as int)),
        decreases items.len() - i,
    {
        proof {
            let now = texts(items@).take(i + 1);
            assert(now.drop_last() =~= texts(items@).take(i as int));
            assert(now.last() == items@[i as int]@);
        }
        if !items[i].as_str().is_empty() {
            r.push(items[i].clone());
        }
        i += 1;
    }
    assert(texts(items@).take(i as int) =~= texts(items@));
    r
}

/// Three texts one after the other.
pub fn concat3(a: &str, b: &str, c: &str) -> (r: String)
    ensures
        r@ == a@ + b@ + c@,
{
    let mut r = a.to_string();
    r.append(b);
    r.append(c);
    r
}

} // verus!
