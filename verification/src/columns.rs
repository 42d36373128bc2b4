//! The columns of event lists.

use crate::events::least;
use crate::failure::Failure;
use crate::order::{
    ascending, ascending_contains, distinct_sorted, distinct_sorted_has_the_same_texts,
    sort_distinct,
};
use crate::tables::{all_normalized, normalize, normalize_all, normalized};
use crate::text::{
    chars_of, concat3, eq_ignoring_case, found_at, lemma_texts_push, same_ignoring_case, same_text,
    starts_with, texts, trim, trim_start, trimmed, white_space,
};
use vstd::prelude::*;
use vstd::string::*;

verus! {

pub const MAX_RETURNED_COLUMNS: usize = 50;

/// Which columns only one of the two event lists has.
#[derive(Debug)]
pub struct EventColumnComparison {
    pub added_count: usize,
    pub removed_count: usize,
    pub added: Vec<String>,
    pub removed: Vec<String>,
    pub truncated: bool,
}

/// How a column is shown: as the last header that it is looked up by, trimmed.
pub open spec fn shown_as(headers: Seq<Seq<char>>, key: Seq<char>) -> Seq<char>
    decreases headers.len(),
{
    if headers.len() == 0 {
        seq![]
    } else if normalized(headers.last()) == key {
        trimmed(headers.last())
    } else {
        shown_as(headers.drop_last(), key)
    }
}

/// Of the looked-up names `keys`, those that `other` lacks, as they are shown in `headers`.
pub open spec fn columns_only_in(
    keys: Seq<Seq<char>>,
    headers: Seq<Seq<char>>,
    other: Seq<Seq<char>>,
) -> Seq<Seq<char>>
    decreases keys.len(),
{
    if keys.len() == 0 {
        seq![]
    } else {
        let before = columns_only_in(keys.drop_last(), headers, other);
        if all_normalized(other).contains(keys.last()) {
            before
        } else {
            before.push(shown_as(headers, keys.last()))
        }
    }
}

/// The columns of `headers` that `other` lacks, in the order of the names they are looked
/// up by.
pub open spec fn columns_missing_from(
    headers: Seq<Seq<char>>,
    other: Seq<Seq<char>>,
) -> Seq<Seq<char>> {
    columns_only_in(distinct_sorted(all_normalized(headers)), headers, other)
}

/// The first [`MAX_RETURNED_COLUMNS`] of `columns`.
pub open spec fn returned_columns(columns: Seq<Seq<char>>) -> Seq<Seq<char>> {
    columns.take(least(columns.len(), MAX_RETURNED_COLUMNS as nat) as int)
}

fn show(headers: &Vec<String>, keys: &Vec<String>, key: &str) -> (r: String)
    requires
        texts(keys@) == all_normalized(texts(headers@)),
    ensures
        r@ == shown_as(texts(headers@), key@),
{
    let ghost model = texts(headers@);
    let mut n: usize = headers.len();
    assert(model.take(n as int) =~= model);
    assert(texts(keys@).len() == keys.len() && model.len() == headers.len());
    while n > 0
        invariant
            n <= headers.len(),
            headers.len() == keys.len(),
            model == texts(headers@),
            texts(keys@) == all_normalized(model),
            shown_as(model, key@) == shown_as(model.take(n as int), key@),
        decreases n,
    {
        assert(texts(keys@)[n - 1] == keys@[n - 1]@);
        assert(model.take(n as int).last() == headers@[n - 1]@);
        assert(model.take(n as int).drop_last() =~= model.take(n - 1));
        if same_text(&keys[n - 1], key) {
            return trim(&headers[n - 1]);
        }
        n -= 1;
    }
    String::new()
}

/// The columns of `headers` that `other` lacks.
fn only_in(headers: &Vec<String>, other: &Vec<String>) -> (r: Vec<String>)
    ensures
        texts(r@) == columns_missing_from(texts(headers@), texts(other@)),
{
    broadcast use lemma_texts_push;

    let names = normalize_all(headers);
    let known = sort_distinct(normalize_all(other));
    let keys = sort_distinct(normalize_all(headers));
    proof {
        distinct_sorted_has_the_same_texts(all_normalized(texts(other@)));
    }
    let ghost model = texts(keys@);
    let mut r: Vec<String> = Vec::new();
    let mut i: usize = 0;
    assert(texts(r@) =~= columns_only_in(model.take(0), texts(headers@), texts(other@)));
    while i < keys.len()
        invariant
            i <= keys.len(),
            model == texts(keys@),
            texts(names@) == all_normalized(texts(headers@)),
            ascending(texts(known@)),
            forall|t: Seq<char>|
                #![trigger texts(known@).contains(t)]
                texts(known@).contains(t) <==> all_normalized(texts(other@)).contains(t),
            texts(r@) == columns_only_in(model.take(i as int), texts(headers@), texts(other@)),
        decreases keys.len() - i,
    {
        proof {
            assert(model.take(i + 1).drop_last() =~= model.take(i as int));
            assert(model.take(i + 1).last() == keys@[i as int]@);
        }
        if !ascending_contains(&known, &keys[i]) {
            r.push(show(headers, &names, &keys[i]));
        }
        i += 1;
    }
    assert(model.take(i as int) =~= model);
    r
}

/// The first [`MAX_RETURNED_COLUMNS`] of `columns`.
fn first_columns(columns: Vec<String>) -> (r: Vec<String>)
    ensures
        texts(r@) == returned_columns(texts(columns@)),
{
    let mut r = columns;
    r.truncate(MAX_RETURNED_COLUMNS);
    assert(texts(r@) =~= returned_columns(texts(columns@)));
    r
}

impl EventColumnComparison {
    /// Whether this is the comparison of the columns `a` with the columns `b`.
    pub open spec fn compares(&self, a: Seq<Seq<char>>, b: Seq<Seq<char>>) -> bool {
        let added = columns_missing_from(b, a);
        let removed = columns_missing_from(a, b);
        &&& self.added_count == added.len()
        &&& self.removed_count == removed.len()
        &&& texts(self.added@) == returned_columns(added)
        &&& texts(self.removed@) == returned_columns(removed)
        &&& self.truncated == (added.len() > MAX_RETURNED_COLUMNS || removed.len()
            > MAX_RETURNED_COLUMNS)
    }
}

/// Which columns were added to `a`, and which removed, to get `b`.
pub fn compare_columns(a: &Vec<String>, b: &Vec<String>) -> (r: EventColumnComparison)
    ensures
        r.compares(texts(a@), texts(b@)),
{
    let added = only_in(b, a);
    let removed = only_in(a, b);
    let added_count: usize = added.len();
    let removed_count: usize = removed.len();
    assert(texts(added@).len() == added_count && texts(removed@).len() == removed_count);
    EventColumnComparison {
        added_count,
        removed_count,
        added: first_columns(added),
        removed: first_columns(removed),
        truncated: added_count > MAX_RETURNED_COLUMNS || removed_count > MAX_RETURNED_COLUMNS,
    }
}

/// Where the first column stands that `expected` names; the number of columns if none does.
pub open spec fn column_at(headers: Seq<Seq<char>>, expected: Seq<char>) -> int
    decreases headers.len(),
{
    if headers.len() == 0 || same_ignoring_case(trimmed(headers[0]), expected) {
        0
    } else {
        1 + column_at(headers.subrange(1, headers.len() as int), expected)
    }
}

/// Looks a column up by its name, up to case and the white space around it.
pub fn find_column(headers: &Vec<String>, expected: &str) -> (r: Option<usize>)
    ensures
        match r {
            Some(at) => at < headers.len() && at == column_at(texts(headers@), expected@),
            None => column_at(texts(headers@), expected@) == headers.len(),
        },
{
    let ghost model = texts(headers@);
    let mut i: usize = 0;
    assert(model.skip(0) =~= model);
    while i < headers.len()
        invariant
            i <= headers.len(),
            model == texts(headers@),
            column_at(model, expected@) == i + column_at(model.skip(i as int), expected@),
        decreases headers.len() - i,
    {
        let ghost rest = model.skip(i as int);
        assert(rest[0] == headers@[i as int]@);
        if eq_ignoring_case(&trim(&headers[i]), expected) {
            return Some(i);
        }
        assert(rest.subrange(1, rest.len() as int) =~= model.skip(i + 1));
        i += 1;
    }
    None
}

/// Where an event list has the column `expected`.
pub fn event_column(headers: &Vec<String>, expected: &str) -> (r: Result<usize, Failure>)
    ensures
        match r {
            Ok(at) => at < headers.len() && at == column_at(texts(headers@), expected@),
            Err(e) => column_at(texts(headers@), expected@) == headers.len() && e.message@
                == "PIX event list is missing the \""@ + expected@ + "\" column"@,
        },
{
    match find_column(headers, expected) {
        Some(at) => Ok(at),
        None => Err(
            Failure::new(concat3("PIX event list is missing the \"", expected, "\" column")),
        ),
    }
}

/// Whether `name` is `base`, alone or with a unit in brackets behind it.
pub open spec fn is_named(name: Seq<char>, base: Seq<char>) -> bool {
    name == base || (starts_with(name, base) && {
        let unit = trim_start(name.skip(base.len() as int));
        unit.len() > 0 && (unit[0] == '(' || unit[0] == '[')
    })
}

/// Whether a column holds GPU durations. Points in time and CPU times do not count.
pub open spec fn is_duration_column(header: Seq<char>) -> bool {
    is_named(normalized(header), "gpu duration"@) || is_named(normalized(header), "gpu time"@)
}

fn named(name: &Vec<char>, base: &str) -> (r: bool)
    ensures
        r == is_named(name@, base@),
{
    let wanted = chars_of(base);
    if !found_at(name, &wanted, 0) {
        proof {
            if name@ == base@ {
                assert(name@.subrange(0, name@.len() as int) =~= name@);
            }
        }
        return false;
    }
    if name.len() == wanted.len() {
        assert(name@.subrange(0, base@.len() as int) =~= name@);
        return true;
    }
    let mut i: usize = wanted.len();
    while i < name.len() && white_space(name[i])
        invariant
            wanted.len() <= i <= name.len(),
            trim_start(name@.skip(wanted.len() as int)) == trim_start(name@.skip(i as int)),
        decreases name.len() - i,
    {
        let ghost rest = name@.skip(i as int);
        assert(rest[0] == name@[i as int]);
        assert(rest.subrange(1, rest.len() as int) =~= name@.skip(i + 1));
        i += 1;
    }
    assert(i < name.len() ==> name@.skip(i as int)[0] == name@[i as int]);
    i < name.len() && (name[i] == '(' || name[i] == '[')
}

/// Where the first column of GPU durations stands; the number of columns if there is none.
pub open spec fn duration_column_at(headers: Seq<Seq<char>>) -> int
    decreases headers.len(),
{
    if headers.len() == 0 || is_duration_column(headers[0]) {
        0
    } else {
        1 + duration_column_at(headers.subrange(1, headers.len() as int))
    }
}

/// The first column of GPU durations, with the name it has.
pub fn gpu_duration_column(headers: &Vec<String>) -> (r: Option<(usize, String)>)
    ensures
        match r {
            Some((at, name)) => at < headers.len() && at == duration_column_at(texts(headers@))
                && name@ == trimmed(headers@[at as int]@),
            None => duration_column_at(texts(headers@)) == headers.len(),
        },
{
    let ghost model = texts(headers@);
    let mut i: usize = 0;
    assert(model.skip(0) =~= model);
    while i < headers.len()
        invariant
            i <= headers.len(),
            model == texts(headers@),
            duration_column_at(model) == i + duration_column_at(model.skip(i as int)),
        decreases headers.len() - i,
    {
        let ghost rest = model.skip(i as int);
        assert(rest[0] == headers@[i as int]@);
        let name = chars_of(&normalize(&headers[i]));
        if named(&name, "gpu duration") || named(&name, "gpu time") {
            return Some((i, trim(&headers[i])));
        }
        assert(rest.subrange(1, rest.len() as int) =~= model.skip(i + 1));
        i += 1;
    }
    None
}

} // verus!
