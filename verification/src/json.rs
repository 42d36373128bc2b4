//! JSON text: strings as the serializer writes them, and the sizes of values.

use crate::numbers::{decimal, decimal_text, hex_digits};
use crate::text::{
    byte_len, concat3, join, joined, lemma_texts_push, optional_text, texts, utf8_len,
};
use vstd::prelude::*;
use vstd::string::*;

verus! {

/// How one character stands inside a JSON string.
pub open spec fn escaped(c: char) -> Seq<char> {
    if c == '"' {
        seq!['\\', '"']
    } else if c == '\\' {
        seq!['\\', '\\']
    } else if c == '\u{8}' {
        seq!['\\', 'b']
    } else if c == '\t' {
        seq!['\\', 't']
    } else if c == '\n' {
        seq!['\\', 'n']
    } else if c == '\u{c}' {
        seq!['\\', 'f']
    } else if c == '\r' {
        seq!['\\', 'r']
    } else if (c as u32) < 0x20 {
        seq!['\\', 'u'] + hex_digits(c as nat, 4)
    } else {
        seq![c]
    }
}

pub open spec fn all_escaped(s: Seq<char>) -> Seq<char>
    decreases s.len(),
{
    if s.len() == 0 {
        seq![]
    } else {
        all_escaped(s.drop_last()) + escaped(s.last())
    }
}

/// `s` as a JSON string.
pub open spec fn quoted(s: Seq<char>) -> Seq<char> {
    seq!['"'] + all_escaped(s) + seq!['"']
}

/// `serde_json::to_string` on a text: the text between quotation marks, with the
/// quotation mark, the backslash and the characters below U+0020 escaped. Writing a
/// text to memory does not fail.
#[verifier::external_body]
pub(crate) fn json_text(s: &str) -> (r: String)
    ensures
        r@ == quoted(s@),
{
    serde_json::to_string(s).unwrap_or_default()
}

/// The number of bytes of `s` as a JSON string.
pub open spec fn quoted_len(s: Seq<char>) -> nat {
    utf8_len(quoted(s))
}

pub fn json_text_len(s: &str) -> (r: usize)
    ensures
        r == quoted_len(s@),
{
    byte_len(&json_text(s))
}

proof fn lemma_escaped_has_no_control(c: char)
    ensures
        forall|i: int| 0 <= i < escaped(c).len() ==> #[trigger] escaped(c)[i] >= ' ',
{
    if (c as u32) < 0x20 {
        let h = hex_digits(c as nat, 4);
        reveal_with_fuel(hex_digits, 5);
        assert(h.len() == 4);
        assert(forall|i: int| 0 <= i < 4 ==> #[trigger] h[i] >= '0');
    }
}

/// A quoted text holds no raw control character below U+0020, so it stays on one line.
pub proof fn quoted_text_stays_on_one_line(s: Seq<char>)
    ensures
        forall|i: int| 0 <= i < quoted(s).len() ==> #[trigger] quoted(s)[i] >= ' ',
{
    lemma_all_escaped_has_no_control(s);
    let q = quoted(s);
    assert forall|i: int| 0 <= i < q.len() implies #[trigger] q[i] >= ' ' by {
        if 0 < i && i < q.len() - 1 {
            assert(q[i] == all_escaped(s)[i - 1]);
        }
    }
}

proof fn lemma_all_escaped_has_no_control(s: Seq<char>)
    ensures
        forall|i: int| 0 <= i < all_escaped(s).len() ==> #[trigger] all_escaped(s)[i] >= ' ',
    decreases s.len(),
{
    if s.len() > 0 {
        let head = all_escaped(s.drop_last());
        let tail = escaped(s.last());
        lemma_all_escaped_has_no_control(s.drop_last());
        lemma_escaped_has_no_control(s.last());
        assert forall|i: int| 0 <= i < all_escaped(s).len() implies #[trigger] all_escaped(s)[i]
            >= ' ' by {
            if i < head.len() {
                assert(all_escaped(s)[i] == head[i]);
            } else {
                assert(all_escaped(s)[i] == tail[i - head.len()]);
            }
        }
    }
}

/// Values, given as JSON, as a JSON array.
pub open spec fn json_list(values: Seq<Seq<char>>) -> Seq<char> {
    "["@ + joined(values, ","@) + "]"@
}

pub fn json_list_text(values: &Vec<String>) -> (r: String)
    ensures
        r@ == json_list(texts(values@)),
{
    concat3("[", &join(values, ","), "]")
}

/// Texts as a JSON array.
pub open spec fn json_array(items: Seq<Seq<char>>) -> Seq<char> {
    json_list(items.map_values(|item: Seq<char>| quoted(item)))
}

fn quote_all(items: &Vec<String>) -> (r: Vec<String>)
    ensures
        texts(r@) == texts(items@).map_values(|item: Seq<char>| quoted(item)),
{
    broadcast use lemma_texts_push;

    let ghost model = texts(items@).map_values(|item: Seq<char>| quoted(item));
    let mut r: Vec<String> = Vec::new();
    let mut i: usize = 0;
    assert(texts(r@) =~= model.take(0));
    while i < items.len()
        invariant
            i <= items.len(),
            model == texts(items@).map_values(|item: Seq<char>| quoted(item)),
            texts(r@) == model.take(i as int),
        decreases items.len() - i,
    {
        r.push(json_text(&items[i]));
        assert(model[i as int] == quoted(items@[i as int]@));
        assert(model.take(i + 1) =~= model.take(i as int).push(model[i as int]));
        i += 1;
    }
    assert(model.take(i as int) =~= model);
    r
}

pub fn json_array_text(items: &Vec<String>) -> (r: String)
    ensures
        r@ == json_array(texts(items@)),
{
    json_list_text(&quote_all(items))
}

pub open spec fn json_bool(b: bool) -> Seq<char> {
    if b {
        "true"@
    } else {
        "false"@
    }
}

pub fn json_bool_text(b: bool) -> (r: &'static str)
    ensures
        r@ == json_bool(b),
{
    if b {
        "true"
    } else {
        "false"
    }
}

/// A member of a JSON object. `value` is JSON.
pub open spec fn member(name: Seq<char>, value: Seq<char>) -> Seq<char> {
    quoted(name) + ":"@ + value
}

/// A member that is left out where there is no value.
pub open spec fn optional_member(name: Seq<char>, value: Option<Seq<char>>) -> Seq<Seq<char>> {
    match value {
        Some(text) => seq![member(name, text)],
        None => seq![],
    }
}

/// An object without members.
pub fn no_members() -> (r: Vec<String>)
    ensures
        texts(r@) == Seq::<Seq<char>>::empty(),
{
    let r: Vec<String> = Vec::new();
    assert(texts(r@) =~= Seq::<Seq<char>>::empty());
    r
}

/// Adds a member to those of an object.
pub fn put_member(members: &mut Vec<String>, name: &str, value: &str)
    ensures
        texts(final(members)@) == texts(old(members)@).push(member(name@, value@)),
{
    broadcast use lemma_texts_push;

    members.push(concat3(&json_text(name), ":", value));
}

/// Adds a member that is a text.
pub fn put_text_member(members: &mut Vec<String>, name: &str, value: &str)
    ensures
        texts(final(members)@) == texts(old(members)@).push(member(name@, quoted(value@))),
{
    put_member(members, name, &json_text(value));
}

/// Adds a member that is a number.
pub fn put_count(members: &mut Vec<String>, name: &str, value: u64)
    ensures
        texts(final(members)@) == texts(old(members)@).push(
            member(name@, decimal(value as nat)),
        ),
{
    put_member(members, name, &decimal_text(value));
}

/// An optional text as JSON.
pub open spec fn quoted_text(text: Option<String>) -> Option<Seq<char>> {
    match text {
        Some(text) => Some(quoted(text@)),
        None => None,
    }
}

pub fn optional_json_text(text: &Option<String>) -> (r: Option<String>)
    ensures
        optional_text(r) == quoted_text(*text),
{
    match text {
        Some(text) => Some(json_text(text)),
        None => None,
    }
}

/// Adds a member where there is a value.
pub fn put_optional(members: &mut Vec<String>, name: &str, value: &Option<String>)
    ensures
        texts(final(members)@) == texts(old(members)@) + optional_member(
            name@,
            optional_text(*value),
        ),
{
    let ghost before = texts(members@);
    if let Some(text) = value {
        put_member(members, name, text);
    }
    assert(texts(members@) =~= before + optional_member(name@, optional_text(*value)));
}

/// Members as a JSON object.
pub open spec fn json_object(members: Seq<Seq<char>>) -> Seq<char> {
    "{"@ + joined(members, ","@) + "}"@
}

pub fn json_object_text(members: &Vec<String>) -> (r: String)
    ensures
        r@ == json_object(texts(members@)),
{
    concat3("{", &join(members, ","), "}")
}

} // verus!
