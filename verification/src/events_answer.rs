//! The answer to a request for an event list: its JSON, and why a page of it is within its budget.

use crate::events::{
    page_message, page_of, pages_fit_the_inline_budget, EventListReport, Page,
    MAX_INLINE_EVENT_PAYLOAD_BYTES,
};
use crate::json::{
    all_escaped, escaped, json_array, json_array_text, json_bool, json_bool_text, json_object,
    json_object_text, member, no_members, optional_json_text, optional_member, put_count, put_member,
    put_optional, quoted, quoted_len, quoted_text,
};
use crate::numbers::{decimal, decimal_text, digit_char};
use crate::plans::answers_with;
use crate::tables::Table;
use crate::text::{joined, optional_text, texts, utf8_len};
use crate::utf8::{utf8_len_of_ascii, utf8_len_of_concatenation};
use vstd::prelude::*;
use vstd::string::*;

verus! {

// ---------------------------------------------------------------------------
// JSON
// ---------------------------------------------------------------------------

/// An optional count as JSON.
pub open spec fn count_json(count: Option<usize>) -> Option<Seq<char>> {
    match count {
        Some(n) => Some(decimal(n as nat)),
        None => None,
    }
}

/// Optional rows as JSON.
pub open spec fn rows_json(rows: Option<Vec<String>>) -> Option<Seq<char>> {
    match rows {
        Some(rows) => Some(json_array(texts(rows@))),
        None => None,
    }
}

/// An optional flag as JSON.
pub open spec fn flag_json(flag: Option<bool>) -> Option<Seq<char>> {
    match flag {
        Some(flag) => Some(json_bool(flag)),
        None => None,
    }
}

fn count_member(count: Option<usize>) -> (r: Option<String>)
    ensures
        optional_text(r) == count_json(count),
{
    match count {
        Some(n) => Some(decimal_text(n as u64)),
        None => None,
    }
}

impl EventListReport {
    pub open spec fn members(&self) -> Seq<Seq<char>> {
        seq![member("success"@, json_bool(self.success))] + optional_member(
            "output_path"@,
            quoted_text(self.output_path),
        ) + optional_member("message"@, quoted_text(self.message)) + seq![
            member("total_events"@, decimal(self.total_events as nat)),
        ] + optional_member("offset"@, count_json(self.offset)) + optional_member(
            "returned"@,
            count_json(self.returned),
        ) + optional_member("truncated"@, flag_json(self.truncated)) + optional_member(
            "next_offset"@,
            count_json(self.next_offset),
        ) + optional_member("header"@, quoted_text(self.header)) + optional_member(
            "rows"@,
            rows_json(self.rows),
        )
    }

    pub open spec fn json(&self) -> Seq<char> {
        json_object(self.members())
    }

    /// The answer as JSON.
    pub fn to_json(&self) -> (r: String)
        ensures
            r@ == self.json(),
    {
        let mut members = no_members();
        put_member(&mut members, "success", json_bool_text(self.success));
        assert(texts(members@) =~= seq![member("success"@, json_bool(self.success))]);
        put_optional(&mut members, "output_path", &optional_json_text(&self.output_path));
        put_optional(&mut members, "message", &optional_json_text(&self.message));
        let ghost before = texts(members@);
        put_count(&mut members, "total_events", self.total_events as u64);
        assert(texts(members@) =~= before + seq![
            member("total_events"@, decimal(self.total_events as nat)),
        ]);
        put_optional(&mut members, "offset", &count_member(self.offset));
        put_optional(&mut members, "returned", &count_member(self.returned));
        let truncated = match self.truncated {
            Some(flag) => Some(json_bool_text(flag).to_string()),
            None => None,
        };
        put_optional(&mut members, "truncated", &truncated);
        put_optional(&mut members, "next_offset", &count_member(self.next_offset));
        put_optional(&mut members, "header", &optional_json_text(&self.header));
        let rows = match &self.rows {
            Some(rows) => Some(json_array_text(rows)),
            None => None,
        };
        put_optional(&mut members, "rows", &rows);
        json_object_text(&members)
    }
}

// ---------------------------------------------------------------------------
// Sizes
// ---------------------------------------------------------------------------

/// What the members of an object take, each with a comma.
spec fn members_len(members: Seq<Seq<char>>) -> nat
    decreases members.len(),
{
    if members.len() == 0 {
        0
    } else {
        members_len(members.drop_last()) + utf8_len(members.last()) + 1
    }
}

proof fn lemma_joined_len(members: Seq<Seq<char>>)
    ensures
        utf8_len(joined(members, ","@)) <= members_len(members),
    decreases members.len(),
{
    reveal_strlit(",");
    utf8_len_of_ascii(","@);
    if members.len() == 0 {
        utf8_len_of_ascii(Seq::<char>::empty());
        assert(joined(members, ","@) =~= Seq::<char>::empty());
    } else {
        let head = members.drop_last();
        lemma_joined_len(head);
        if members.len() > 1 {
            let before = joined(head, ","@);
            utf8_len_of_concatenation(before, ","@);
            utf8_len_of_concatenation(before + ","@, members.last());
        }
    }
}

proof fn lemma_object_len(members: Seq<Seq<char>>)
    ensures
        utf8_len(json_object(members)) <= 2 + members_len(members),
{
    lemma_joined_len(members);
    reveal_strlit("{");
    reveal_strlit("}");
    utf8_len_of_ascii("{"@);
    utf8_len_of_ascii("}"@);
    utf8_len_of_concatenation("{"@, joined(members, ","@));
    utf8_len_of_concatenation("{"@ + joined(members, ","@), "}"@);
}

/// Whether a text stands in JSON as it is.
spec fn is_plain(s: Seq<char>) -> bool {
    forall|i: int|
        0 <= i < s.len() ==> ' ' <= #[trigger] s[i] <= '~' && s[i] != '"' && s[i] != '\\'
}

proof fn lemma_plain_is_unescaped(s: Seq<char>)
    requires
        is_plain(s),
    ensures
        all_escaped(s) == s,
    decreases s.len(),
{
    if s.len() > 0 {
        let head = s.drop_last();
        assert(is_plain(head)) by {
            assert forall|i: int| 0 <= i < head.len() implies ' ' <= #[trigger] head[i] <= '~'
                && head[i] != '"' && head[i] != '\\' by {
                assert(head[i] == s[i]);
            }
        }
        lemma_plain_is_unescaped(head);
        let c = s[s.len() - 1];
        assert(escaped(c) =~= seq![c]);
        assert(all_escaped(s) =~= s);
    } else {
        assert(all_escaped(s) =~= s);
    }
}

proof fn lemma_plain_len(s: Seq<char>)
    requires
        is_plain(s),
    ensures
        utf8_len(s) == s.len(),
        quoted_len(s) == s.len() + 2,
{
    lemma_plain_is_unescaped(s);
    utf8_len_of_ascii(s);
    let q = quoted(s);
    assert forall|i: int| 0 <= i < q.len() implies (#[trigger] q[i] as u32) < 0x80 by {
        if 0 < i && i < q.len() - 1 {
            assert(q[i] == s[i - 1]);
        }
    }
    utf8_len_of_ascii(q);
}

/// What a member with a plain name takes.
proof fn lemma_member_len(name: Seq<char>, value: Seq<char>)
    requires
        is_plain(name),
    ensures
        utf8_len(member(name, value)) == name.len() + 3 + utf8_len(value),
{
    lemma_plain_len(name);
    reveal_strlit(":");
    utf8_len_of_ascii(":"@);
    utf8_len_of_concatenation(quoted(name), ":"@);
    utf8_len_of_concatenation(quoted(name) + ":"@, value);
}

spec fn ten_to(k: nat) -> nat
    decreases k,
{
    if k == 0 {
        1
    } else {
        10 * ten_to((k - 1) as nat)
    }
}

proof fn lemma_decimal_is_plain(n: nat, k: nat)
    requires
        k > 0,
        n < ten_to(k),
    ensures
        is_plain(decimal(n)),
        decimal(n).len() <= k,
    decreases k,
{
    if n >= 10 {
        reveal_with_fuel(ten_to, 2);
        assert(n / 10 < ten_to((k - 1) as nat)) by (nonlinear_arith)
            requires
                n < 10 * ten_to((k - 1) as nat),
        ;
        lemma_decimal_is_plain(n / 10, (k - 1) as nat);
        let c = digit_char(n % 10);
        assert('0' <= c <= '9');
        assert(decimal(n) =~= decimal(n / 10).push(c));
    } else {
        let c = digit_char(n);
        assert('0' <= c <= '9');
        assert(decimal(n) =~= seq![c]);
    }
}

/// A count takes twenty digits at most.
proof fn lemma_count(n: usize)
    ensures
        is_plain(decimal(n as nat)),
        decimal(n as nat).len() <= 20,
        utf8_len(decimal(n as nat)) <= 20,
{
    reveal_with_fuel(ten_to, 21);
    lemma_decimal_is_plain(n as nat, 20);
    lemma_plain_len(decimal(n as nat));
}

proof fn lemma_plain_concatenation(a: Seq<char>, b: Seq<char>)
    requires
        is_plain(a),
        is_plain(b),
    ensures
        is_plain(a + b),
{
    let s = a + b;
    assert forall|i: int| 0 <= i < s.len() implies ' ' <= #[trigger] s[i] <= '~' && s[i] != '"'
        && s[i] != '\\' by {
        if i < a.len() {
            assert(s[i] == a[i]);
        } else {
            assert(s[i] == b[i - a.len()]);
        }
    }
}

/// What is said with a page is short.
proof fn lemma_message(page: Page, offset: usize, end: usize, total: usize)
    requires
        page.offset == offset,
        page.offset + page.rows.len() == end,
        page.total_events == total,
    ensures
        quoted_len(page_message(page)) <= 250,
{
    lemma_count(offset);
    lemma_count(end);
    lemma_count(total);
    reveal_strlit("Showing rows ");
    reveal_strlit("..");
    reveal_strlit(" of ");
    reveal_strlit(" (inline byte limit reached)");
    reveal_strlit("");
    reveal_strlit(". Pass offset=");
    reveal_strlit(" for the next page, or output_path to save the full CSV.");
    let a = decimal(offset as nat);
    let b = decimal(end as nat);
    let c = decimal(total as nat);
    let limited = if page.byte_limited {
        " (inline byte limit reached)"@
    } else {
        ""@
    };
    let s1 = "Showing rows "@ + a;
    let s2 = s1 + ".."@;
    let s3 = s2 + b;
    let s4 = s3 + " of "@;
    let s5 = s4 + c;
    let s6 = s5 + limited;
    let s7 = s6 + ". Pass offset="@;
    let s8 = s7 + b;
    let s9 = s8 + " for the next page, or output_path to save the full CSV."@;
    lemma_plain_concatenation("Showing rows "@, a);
    lemma_plain_concatenation(s1, ".."@);
    lemma_plain_concatenation(s2, b);
    lemma_plain_concatenation(s3, " of "@);
    lemma_plain_concatenation(s4, c);
    lemma_plain_concatenation(s5, limited);
    lemma_plain_concatenation(s6, ". Pass offset="@);
    lemma_plain_concatenation(s7, b);
    lemma_plain_concatenation(s8, " for the next page, or output_path to save the full CSV."@);
    assert(page_message(page) == s9);
    lemma_plain_len(s9);
}

proof fn lemma_names_are_plain()
    ensures
        is_plain("success"@) && "success"@.len() == 7,
        is_plain("message"@) && "message"@.len() == 7,
        is_plain("total_events"@) && "total_events"@.len() == 12,
        is_plain("offset"@) && "offset"@.len() == 6,
        is_plain("returned"@) && "returned"@.len() == 8,
        is_plain("truncated"@) && "truncated"@.len() == 9,
        is_plain("next_offset"@) && "next_offset"@.len() == 11,
        is_plain("header"@) && "header"@.len() == 6,
        is_plain("rows"@) && "rows"@.len() == 4,
        utf8_len("true"@) == 4,
        utf8_len("false"@) == 5,
{
    reveal_strlit("success");
    reveal_strlit("message");
    reveal_strlit("total_events");
    reveal_strlit("offset");
    reveal_strlit("returned");
    reveal_strlit("truncated");
    reveal_strlit("next_offset");
    reveal_strlit("header");
    reveal_strlit("rows");
    reveal_strlit("true");
    reveal_strlit("false");
    utf8_len_of_ascii("true"@);
    utf8_len_of_ascii("false"@);
}

proof fn lemma_members_len_push(members: Seq<Seq<char>>, last: Seq<char>)
    ensures
        members_len(members.push(last)) == members_len(members) + utf8_len(last) + 1,
{
    assert(members.push(last).drop_last() =~= members);
}

/// What members take together.
proof fn lemma_members_len_concatenation(a: Seq<Seq<char>>, b: Seq<Seq<char>>)
    ensures
        members_len(a + b) == members_len(a) + members_len(b),
    decreases b.len(),
{
    if b.len() == 0 {
        assert(a + b =~= a);
    } else {
        assert((a + b).drop_last() =~= a + b.drop_last());
        lemma_members_len_concatenation(a, b.drop_last());
    }
}

/// What one member takes.
proof fn lemma_one_member(name: Seq<char>, value: Seq<char>)
    requires
        is_plain(name),
    ensures
        members_len(seq![member(name, value)]) == name.len() + 4 + utf8_len(value),
        members_len(optional_member(name, Some(value))) == name.len() + 4 + utf8_len(value),
        members_len(optional_member(name, None)) == 0,
{
    lemma_member_len(name, value);
    lemma_members_len_push(Seq::empty(), member(name, value));
    assert(seq![member(name, value)] =~= Seq::empty().push(member(name, value)));
}

/// An answer that returns a page inline takes no more JSON than the inline budget, whatever the
/// rows hold and however many there are.
pub proof fn inline_answers_keep_within_their_budget(
    report: EventListReport,
    contents: Table,
    requested: nat,
    row_limit: nat,
)
    requires
        page_of(contents, requested, row_limit) is Ok,
        answers_with(report, page_of(contents, requested, row_limit)->Ok_0),
    ensures
        utf8_len(report.json()) <= MAX_INLINE_EVENT_PAYLOAD_BYTES,
{
    let page = page_of(contents, requested, row_limit)->Ok_0;
    pages_fit_the_inline_budget(contents, requested, row_limit);
    lemma_names_are_plain();
    lemma_count(report.total_events);
    lemma_count(report.offset->0);
    lemma_count(report.returned->0);
    if let Some(next) = report.next_offset {
        lemma_count(next);
        lemma_message(page, report.offset->0, next, report.total_events);
        lemma_one_member("next_offset"@, decimal(next as nat));
    }
    let m0 = seq![member("success"@, json_bool(report.success))];
    let o1 = optional_member("output_path"@, quoted_text(report.output_path));
    let o2 = optional_member("message"@, quoted_text(report.message));
    let m3 = seq![member("total_events"@, decimal(report.total_events as nat))];
    let o4 = optional_member("offset"@, count_json(report.offset));
    let o5 = optional_member("returned"@, count_json(report.returned));
    let o6 = optional_member("truncated"@, flag_json(report.truncated));
    let o7 = optional_member("next_offset"@, count_json(report.next_offset));
    let o8 = optional_member("header"@, quoted_text(report.header));
    let o9 = optional_member("rows"@, rows_json(report.rows));
    lemma_one_member("success"@, json_bool(report.success));
    lemma_one_member("total_events"@, decimal(report.total_events as nat));
    lemma_one_member("offset"@, decimal(report.offset->0 as nat));
    lemma_one_member("returned"@, decimal(report.returned->0 as nat));
    lemma_one_member("truncated"@, json_bool(report.truncated->0));
    lemma_one_member("header"@, quoted(page.header));
    lemma_one_member("rows"@, json_array(page.rows));
    assert(o1 =~= Seq::<Seq<char>>::empty());
    assert(members_len(o1) == 0);
    assert(members_len(o2) <= 261) by {
        if let Some(message) = report.message {
            assert(message@ == page_message(page));
            lemma_one_member("message"@, quoted(message@));
        }
    }
    assert(members_len(o7) <= 35);
    lemma_members_len_concatenation(m0, o1);
    lemma_members_len_concatenation(m0 + o1, o2);
    lemma_members_len_concatenation(m0 + o1 + o2, m3);
    lemma_members_len_concatenation(m0 + o1 + o2 + m3, o4);
    lemma_members_len_concatenation(m0 + o1 + o2 + m3 + o4, o5);
    lemma_members_len_concatenation(m0 + o1 + o2 + m3 + o4 + o5, o6);
    lemma_members_len_concatenation(m0 + o1 + o2 + m3 + o4 + o5 + o6, o7);
    lemma_members_len_concatenation(m0 + o1 + o2 + m3 + o4 + o5 + o6 + o7, o8);
    lemma_members_len_concatenation(m0 + o1 + o2 + m3 + o4 + o5 + o6 + o7 + o8, o9);
    lemma_object_len(report.members());
}

} // verus!
