//! What holds of the captures that identifiers, addresses and queries name.

use crate::completion::{kind_of, other_capture, ArgumentKind};
use crate::json::quoted;
use crate::order::{sorted, sorted_is_an_ordered_rearrangement, text_less, text_less_is_total};
use crate::path_laws::{
    last_components_stand_behind_the_last_slash, names_are_parted_at_their_last_dot,
};
use crate::paths::lemma_single_name;
use crate::prompts::{
    compare_text, completions, debug_problem, debug_text, exact_names, first_of_each, identity_key,
    is_offered, is_settled_id, name_of_stem, offered, partial_names, profile_text,
};
use crate::resources::{
    capture_id_problem, capture_named, decoded_segment, decoded_segments, escapes_are_valid,
    exact_matches, files_among, has_stem, hex_byte, is_found, is_wpix_name, name_before,
    partial_matches, requested_stem, resource_at, stem_contains, ByName, CaptureFile, FoundResource,
    Resource, ResourceReadError, ScannedEntry,
};
use crate::text::{
    ends_with, has_part, is_blank, lower_ascii, same_ignoring_case, starts_with, trimmed,
    unicode_lower, utf8_len,
};
use crate::text_laws::{found_parts_are_there, parts_are_found_anywhere};
use vstd::multiset::Multiset;
use vstd::prelude::*;
use vstd::string::*;
use vstd::utf8::*;

verus! {

// ---------------------------------------------------------------------------
// Stems
// ---------------------------------------------------------------------------

/// A file has a stem where its name, without the extension and without the directories before it, is
/// the stem, up to the case of ASCII letters; and its stem contains a text where that, in lower
/// case, stands anywhere in it.
pub proof fn files_are_known_by_their_stems(
    directory: Seq<char>,
    before: Seq<char>,
    after: Seq<char>,
    wanted: Seq<char>,
)
    requires
        before.len() > 0,
        !before.contains('/'),
        !after.contains('/') && !after.contains('.'),
        after.len() > 0,
    ensures
        ({
            let name = before + seq!['.'] + after;
            let deep = directory + seq!['/'] + name;
            &&& has_stem(name, wanted) <==> lower_ascii(before) == lower_ascii(wanted)
            &&& has_stem(deep, wanted) <==> lower_ascii(before) == lower_ascii(wanted)
            &&& stem_contains(name, wanted) <==> has_part(unicode_lower(before), wanted)
            &&& stem_contains(deep, wanted) <==> has_part(unicode_lower(before), wanted)
        }),
{
    let name = before + seq!['.'] + after;
    reveal_strlit(".");
    reveal_strlit("..");
    assert forall|i: int| 0 <= i < after.len() implies #[trigger] after[i] != '.' by {
        assert(after.contains(after[i]));
    }
    assert(!name.contains('/')) by {
        if name.contains('/') {
            let k = choose|k: int| 0 <= k < name.len() && name[k] == '/';
            if k < before.len() {
                assert(before.contains(before[k]));
            } else if k > before.len() {
                assert(after.contains(after[k - before.len() - 1]));
            }
        }
    }
    assert(name.last() == after.last());
    assert(after[after.len() - 1] != '.');
    assert(name != "."@ && name != ".."@);
    last_components_stand_behind_the_last_slash(directory, name);
    names_are_parted_at_their_last_dot(before, after);
}

/// What an identifier asks for is itself, or, where it ends with `.wpix` in any case, what stands
/// before that.
pub proof fn identifiers_ask_for_stems(before: Seq<char>, after: Seq<char>)
    requires
        before.len() > 0,
        after.len() > 0,
        !after.contains('.'),
    ensures
        same_ignoring_case(after, "wpix"@) ==> requested_stem(before + seq!['.'] + after) == before,
        !same_ignoring_case(after, "wpix"@) ==> requested_stem(before + seq!['.'] + after) == before
            + seq!['.'] + after,
        requested_stem(after) == after,
{
    let name = before + seq!['.'] + after;
    reveal_strlit(".");
    reveal_strlit("..");
    assert forall|i: int| 0 <= i < after.len() implies #[trigger] after[i] != '.' by {
        assert(after.contains(after[i]));
    }
    assert(name.last() == after.last());
    assert(after[after.len() - 1] != '.');
    assert(name != "."@ && name != ".."@);
    names_are_parted_at_their_last_dot(before, after);
}

/// An identifier is refused exactly where it is blank, has a slash, a backslash or a colon in it, or
/// stands for a directory.
pub proof fn identifiers_are_single_names(id: Seq<char>)
    ensures
        capture_id_problem(id) is Some <==> is_blank(id) || id.contains('/') || id.contains('\\')
            || id.contains(':') || id == "."@ || id == ".."@,
{
}

// ---------------------------------------------------------------------------
// Finding a capture
// ---------------------------------------------------------------------------

proof fn lemma_exact_matches(files: Seq<CaptureFile>, wanted: Seq<char>)
    ensures
        exact_matches(files, wanted) == files.filter(
            |file: CaptureFile| has_stem(file.name@, wanted),
        ),
    decreases files.len(),
{
    reveal(Seq::filter);
    if files.len() > 0 {
        lemma_exact_matches(files.drop_last(), wanted);
    }
}

proof fn lemma_partial_matches(files: Seq<CaptureFile>, needle: Seq<char>)
    ensures
        partial_matches(files, needle) == files.filter(
            |file: CaptureFile| stem_contains(file.name@, needle),
        ),
    decreases files.len(),
{
    reveal(Seq::filter);
    if files.len() > 0 {
        lemma_partial_matches(files.drop_last(), needle);
    }
}

proof fn lemma_filtered_multiset(s: Seq<CaptureFile>, pick: spec_fn(CaptureFile) -> bool)
    ensures
        s.filter(pick).to_multiset() =~= s.to_multiset().filter(pick),
    decreases s.len(),
{
    broadcast use vstd::seq_lib::group_to_multiset_ensures;

    reveal(Seq::filter);
    if s.len() > 0 {
        let head = s.drop_last();
        lemma_filtered_multiset(head, pick);
        assert(s =~= head.push(s.last()));
        assert(s.to_multiset() =~= head.to_multiset().insert(s.last()));
        if pick(s.last()) {
            assert(s.filter(pick).to_multiset() =~= head.filter(pick).to_multiset().insert(
                s.last(),
            ));
        }
    } else {
        assert(s.filter(pick).to_multiset() =~= Multiset::empty());
        assert(s.to_multiset() =~= Multiset::empty());
    }
}

/// Sorting changes the order of what is picked, and nothing else.
proof fn lemma_picked_when_sorted(files: Seq<CaptureFile>, pick: spec_fn(CaptureFile) -> bool)
    ensures
        sorted::<ByName>(files).filter(pick).len() == files.filter(pick).len(),
        files.filter(pick).len() == 1 ==> sorted::<ByName>(files).filter(pick)[0] == files.filter(
            pick,
        )[0],
{
    broadcast use vstd::seq_lib::group_to_multiset_ensures;

    let ordered = sorted::<ByName>(files);
    sorted_is_an_ordered_rearrangement::<ByName>(files);
    lemma_filtered_multiset(files, pick);
    lemma_filtered_multiset(ordered, pick);
    let a = files.filter(pick);
    let b = ordered.filter(pick);
    assert(a.to_multiset() == b.to_multiset());
    assert(a.to_multiset().len() == a.len() && b.to_multiset().len() == b.len());
    if a.len() == 1 {
        assert(b.contains(b[0]));
        assert(b.to_multiset().count(b[0]) > 0);
        assert(a.contains(b[0]));
    }
}

/// An identifier names the one capture with its stem, up to case, however many others contain it.
/// Where several have it, none is chosen. Where none has it, an identifier that is a file name names
/// nothing, and another names the one capture whose stem contains it, up to case; where several do,
/// none is chosen. In what order the captures come does not matter.
pub proof fn identifiers_name_one_capture(files: Seq<CaptureFile>, id: Seq<char>)
    requires
        capture_id_problem(id) is None,
    ensures
        ({
            let wanted = requested_stem(id);
            let exact = files.filter(|file: CaptureFile| has_stem(file.name@, wanted));
            let partial = files.filter(
                |file: CaptureFile| stem_contains(file.name@, unicode_lower(wanted)),
            );
            &&& exact.len() == 1 ==> capture_named(files, id) == Ok::<Seq<char>, Seq<char>>(
                exact[0].path@,
            )
            &&& exact.len() > 1 ==> capture_named(files, id) is Err
            &&& exact.len() == 0 && is_wpix_name(id) ==> capture_named(files, id) is Err
            &&& exact.len() == 0 && !is_wpix_name(id) && partial.len() == 1 ==> capture_named(
                files,
                id,
            ) == Ok::<Seq<char>, Seq<char>>(partial[0].path@)
            &&& exact.len() == 0 && partial.len() != 1 ==> capture_named(files, id) is Err
        }),
{
    let wanted = requested_stem(id);
    let ordered = sorted::<ByName>(files);
    let has = |file: CaptureFile| has_stem(file.name@, wanted);
    let contains = |file: CaptureFile| stem_contains(file.name@, unicode_lower(wanted));
    lemma_exact_matches(ordered, wanted);
    lemma_partial_matches(ordered, unicode_lower(wanted));
    lemma_picked_when_sorted(files, has);
    lemma_picked_when_sorted(files, contains);
}

/// A refused identifier names nothing.
pub proof fn refused_identifiers_name_nothing(files: Seq<CaptureFile>, id: Seq<char>)
    requires
        capture_id_problem(id) is Some,
    ensures
        capture_named(files, id) is Err,
{
}

/// The captures of a directory are the files in it whose names end with `.wpix`, in any case; what
/// leads out of the directory is none of them.
pub proof fn capture_files_are_inside(entries: Seq<ScannedEntry>)
    ensures
        files_among(entries) == entries.filter(
            |entry: ScannedEntry| entry.is_file && entry.is_inside && is_wpix_name(entry.name@),
        ).map_values(|entry: ScannedEntry| entry.file),
    decreases entries.len(),
{
    reveal(Seq::filter);
    let pick = |entry: ScannedEntry|
        entry.is_file && entry.is_inside && is_wpix_name(entry.name@);
    let file = |entry: ScannedEntry| entry.file;
    if entries.len() > 0 {
        let head = entries.drop_last();
        capture_files_are_inside(head);
        if pick(entries.last()) {
            assert(entries.filter(pick).map_values(file) =~= head.filter(pick).map_values(
                file,
            ).push(entries.last().file));
        }
    } else {
        assert(entries.filter(pick).map_values(file) =~= files_among(entries));
    }
}

// ---------------------------------------------------------------------------
// Addresses
// ---------------------------------------------------------------------------

/// An address begins with `capture://`. With nothing behind that, or `list`, it names the list.
pub proof fn addresses_begin_with_their_scheme(uri: Seq<char>)
    ensures
        !starts_with(uri, "capture://"@) ==> resource_at(uri) is Err,
        resource_at("capture://"@) == Ok::<Resource, Seq<char>>(Resource::List),
        resource_at("capture://"@ + "list"@) == Ok::<Resource, Seq<char>>(Resource::List),
{
    reveal_strlit("capture://");
    reveal_strlit("list");
    let none = Seq::<char>::empty();
    crate::resources::encoded_segment_is_read_back(none);
    crate::resources::encoded_segment_is_read_back("list"@);
    lemma_plain("list"@);
    lemma_plain(none);
    let a = "capture://"@;
    assert(a.subrange(0, 10) =~= "capture://"@);
    assert(a.skip(10) =~= none);
    lemma_one_segment(none, none);
    let b = "capture://"@ + "list"@;
    assert(b.subrange(0, 10) =~= "capture://"@);
    assert(b.skip(10) =~= "list"@);
    lemma_one_segment("list"@, "list"@);
}

proof fn lemma_one_segment(segment: Seq<char>, text: Seq<char>)
    requires
        decoded_segment(segment) == Ok::<Seq<char>, Seq<char>>(text),
    ensures
        decoded_segments(seq![segment]) == Ok::<Seq<Seq<char>>, Seq<char>>(seq![text]),
{
    let all = seq![segment];
    assert(all.drop_last() =~= Seq::<Seq<char>>::empty());
    assert(decoded_segments(all.drop_last()) == Ok::<Seq<Seq<char>>, Seq<char>>(seq![]));
    assert(Seq::<Seq<char>>::empty().push(text) =~= seq![text]);
}

/// Small letters are their own percent-encoding.
proof fn lemma_plain(s: Seq<char>)
    requires
        forall|i: int| 0 <= i < s.len() ==> 'a' <= #[trigger] s[i] <= 'z',
    ensures
        crate::resources::percent_encoded(s) == s,
{
    is_ascii_chars_encode_utf8(s);
    let bytes = encode_utf8(s);
    assert(bytes =~= Seq::new(s.len(), |i: int| s[i] as u8));
    lemma_plain_bytes(bytes);
    assert(crate::resources::percent_encoded(s) =~= s);
}

proof fn lemma_plain_bytes(bytes: Seq<u8>)
    requires
        forall|i: int| 0 <= i < bytes.len() ==> 97 <= #[trigger] bytes[i] <= 122,
    ensures
        crate::resources::encoded_bytes(bytes) == Seq::new(bytes.len(), |i: int| bytes[i] as char),
    decreases bytes.len(),
{
    if bytes.len() > 0 {
        let rest = bytes.subrange(1, bytes.len() as int);
        assert forall|i: int| 0 <= i < rest.len() implies 97 <= #[trigger] rest[i] <= 122 by {
            assert(rest[i] == bytes[i + 1]);
        }
        lemma_plain_bytes(rest);
        assert(97 <= bytes[0] <= 122);
    }
    assert(crate::resources::encoded_bytes(bytes) =~= Seq::new(
        bytes.len(),
        |i: int| bytes[i] as char,
    ));
}

/// A percent sign must be followed by two hexadecimal digits wherever it stands.
pub proof fn escapes_are_checked(bytes: Seq<u8>, at: int, bad: int)
    requires
        0 <= at <= bad < bytes.len(),
        bytes[bad] == 37,
        forall|i: int| at <= i < bad ==> #[trigger] bytes[i] != 37,
        !(bad + 2 < bytes.len() && hex_byte(bytes[bad + 1]) is Some && hex_byte(bytes[bad + 2])
            is Some),
    ensures
        !escapes_are_valid(bytes, at),
    decreases bad - at,
{
    if at < bad {
        assert(bytes[at] != 37);
        escapes_are_checked(bytes, at + 1, bad);
    }
}

// ---------------------------------------------------------------------------
// Identity
// ---------------------------------------------------------------------------

/// Two arguments that differ in nothing but case, the white space around them and `.wpix` at the end
/// name one capture.
pub proof fn identity_goes_by_the_name(name: Seq<char>, other: Seq<char>)
    ensures
        lower_ascii(trimmed(name)) == lower_ascii(trimmed(other)) ==> identity_key(name)
            == identity_key(other),
        !ends_with(lower_ascii(trimmed(name)), ".wpix"@) ==> identity_key(name) == lower_ascii(
            trimmed(name),
        ),
        lower_ascii(trimmed(name)) == other + ".wpix"@ ==> identity_key(name) == other,
{
    reveal_strlit(".wpix");
    parts_are_found_anywhere(other, ".wpix"@, Seq::empty());
    let whole = other + ".wpix"@;
    assert(whole.take(whole.len() - 5) =~= other);
}

// ---------------------------------------------------------------------------
// Completions
// ---------------------------------------------------------------------------

/// The names with a stem, and those whose stem contains a text, are picked from all names in their
/// order.
pub proof fn names_are_picked_by_their_stems(
    names: Seq<Seq<char>>,
    wanted: Seq<char>,
    needle: Seq<char>,
)
    ensures
        exact_names(names, wanted) == names.filter(|name: Seq<char>| has_stem(name, wanted)),
        partial_names(names, needle) == names.filter(|name: Seq<char>| stem_contains(name, needle)),
    decreases names.len(),
{
    reveal(Seq::filter);
    if names.len() > 0 {
        names_are_picked_by_their_stems(names.drop_last(), wanted, needle);
    }
}

/// A name is resolved where one capture has the stem; where none has, and no file name was given,
/// where one contains it. Several are never resolved.
pub proof fn resolved_names_are_unique(
    names: Seq<Seq<char>>,
    wanted: Seq<char>,
    file_name_given: bool,
)
    ensures
        ({
            let exact = names.filter(|name: Seq<char>| has_stem(name, wanted));
            let partial = names.filter(
                |name: Seq<char>| stem_contains(name, unicode_lower(wanted)),
            );
            let found = name_of_stem(names, wanted, file_name_given);
            &&& exact.len() == 1 ==> found == Some(exact[0])
            &&& exact.len() > 1 ==> found is None
            &&& exact.len() == 0 && file_name_given ==> found is None
            &&& exact.len() == 0 && !file_name_given && partial.len() == 1 ==> found == Some(
                partial[0],
            )
            &&& exact.len() == 0 && partial.len() != 1 ==> found is None
        }),
{
    names_are_picked_by_their_stems(names, wanted, unicode_lower(wanted));
}

/// Whether a name may be completed: it is not the one that is left out, up to case, and has the
/// query in it, anywhere and up to case.
pub open spec fn may_be_completed(
    name: Seq<char>,
    excluded: Option<Seq<char>>,
    query: Seq<char>,
) -> bool {
    &&& excluded matches Some(other) ==> lower_ascii(name) != lower_ascii(other)
    &&& exists|before: Seq<char>, after: Seq<char>|
        unicode_lower(name) == #[trigger] (before + query + after)
}

proof fn lemma_may_be_completed(name: Seq<char>, excluded: Option<Seq<char>>, query: Seq<char>)
    ensures
        may_be_completed(name, excluded, query) == is_offered(name, excluded, query),
{
    let low = unicode_lower(name);
    found_parts_are_there(low, query);
    if query.len() == 0 {
        assert(low =~= Seq::<char>::empty() + query + low);
    }
    if may_be_completed(name, excluded, query) {
        let (before, after) = choose|before: Seq<char>, after: Seq<char>|
            low == #[trigger] (before + query + after);
        parts_are_found_anywhere(before, query, after);
    }
}

/// What is offered first are the names that begin with the query, and then those that have it
/// further on, both in the order of the captures.
pub proof fn names_that_begin_with_the_query_come_first(
    names: Seq<Seq<char>>,
    excluded: Option<Seq<char>>,
    query: Seq<char>,
)
    ensures
        offered(names, excluded, query, true) == names.filter(
            |name: Seq<char>|
                may_be_completed(name, excluded, query) && starts_with(unicode_lower(name), query),
        ),
        offered(names, excluded, query, false) == names.filter(
            |name: Seq<char>|
                may_be_completed(name, excluded, query) && !starts_with(unicode_lower(name), query),
        ),
    decreases names.len(),
{
    reveal(Seq::filter);
    if names.len() > 0 {
        names_that_begin_with_the_query_come_first(names.drop_last(), excluded, query);
        lemma_may_be_completed(names.last(), excluded, query);
    }
}

/// Of names that are equal in lower case only the first is kept; every other name is kept, in its
/// order.
pub proof fn each_name_is_kept_once(names: Seq<Seq<char>>, i: int, j: int)
    ensures
        first_of_each(names).len() <= names.len(),
        0 <= i < j < first_of_each(names).len() ==> unicode_lower(first_of_each(names)[i])
            != unicode_lower(first_of_each(names)[j]),
        0 <= i < names.len() ==> exists|k: int|
            0 <= k < first_of_each(names).len() && unicode_lower(
                #[trigger] first_of_each(names)[k],
            ) == unicode_lower(names[i]),
        0 <= i < first_of_each(names).len() ==> names.contains(first_of_each(names)[i]),
        (forall|a: int, b: int|
            0 <= a < b < names.len() ==> unicode_lower(#[trigger] names[a]) != unicode_lower(
                #[trigger] names[b],
            )) ==> first_of_each(names) == names,
    decreases names.len(),
{
    if names.len() > 0 {
        let head = names.drop_last();
        let last = names.last();
        let before = first_of_each(head);
        let all = first_of_each(names);
        each_name_is_kept_once(head, i, j);
        let repeated = exists|k: int|
            0 <= k < names.len() - 1 && unicode_lower(#[trigger] names[k]) == unicode_lower(last);
        if 0 <= i < all.len() && i < before.len() {
            let m = choose|m: int| 0 <= m < head.len() && head[m] == before[i];
            assert(names[m] == before[i]);
        }
        if 0 <= i < j < all.len() && j == before.len() {
            each_name_is_kept_once(head, i, i);
            assert(head.contains(before[i]));
            let m = choose|m: int| 0 <= m < head.len() && head[m] == before[i];
            assert(names[m] == before[i]);
        }
        if 0 <= i < names.len() {
            if i < head.len() {
                let k = choose|k: int|
                    0 <= k < before.len() && unicode_lower(#[trigger] before[k]) == unicode_lower(
                        head[i],
                    );
                assert(all[k] == before[k]);
            } else if repeated {
                let m = choose|m: int|
                    0 <= m < names.len() - 1 && unicode_lower(#[trigger] names[m])
                        == unicode_lower(last);
                each_name_is_kept_once(head, m, m);
                let k = choose|k: int|
                    0 <= k < before.len() && unicode_lower(#[trigger] before[k]) == unicode_lower(
                        head[m],
                    );
                assert(all[k] == before[k]);
            } else {
                assert(all[before.len() as int] == last);
            }
        }
        if forall|a: int, b: int|
            0 <= a < b < names.len() ==> unicode_lower(#[trigger] names[a]) != unicode_lower(
                #[trigger] names[b],
            ) {
            assert forall|a: int, b: int| 0 <= a < b < head.len() implies unicode_lower(
                #[trigger] head[a],
            ) != unicode_lower(#[trigger] head[b]) by {
                assert(names[a] == head[a] && names[b] == head[b]);
            }
            if repeated {
                let m = choose|m: int|
                    0 <= m < names.len() - 1 && unicode_lower(#[trigger] names[m])
                        == unicode_lower(last);
                assert(unicode_lower(names[m]) != unicode_lower(names[names.len() - 1]));
            }
            assert(head.push(last) =~= names);
        }
    }
}

/// Every completion is a capture that may be completed, and every such capture is among the
/// completions, up to case; no two of them are equal in lower case.
pub proof fn completions_are_what_may_be_completed(
    names: Seq<Seq<char>>,
    excluded: Option<Seq<char>>,
    query: Seq<char>,
    i: int,
    j: int,
)
    ensures
        ({
            let all = completions(names, excluded, query);
            &&& 0 <= i < all.len() ==> names.contains(all[i]) && may_be_completed(
                all[i],
                excluded,
                query,
            )
            &&& 0 <= i < names.len() && may_be_completed(names[i], excluded, query) ==> exists|
                k: int,
            |
                0 <= k < all.len() && unicode_lower(#[trigger] all[k]) == unicode_lower(names[i])
            &&& 0 <= i < j < all.len() ==> unicode_lower(all[i]) != unicode_lower(all[j])
        }),
{
    let first = |name: Seq<char>|
        may_be_completed(name, excluded, query) && starts_with(unicode_lower(name), query);
    let later = |name: Seq<char>|
        may_be_completed(name, excluded, query) && !starts_with(unicode_lower(name), query);
    names_that_begin_with_the_query_come_first(names, excluded, query);
    let a = names.filter(first);
    let b = names.filter(later);
    let both = a + b;
    let all = completions(names, excluded, query);
    each_name_is_kept_once(both, i, j);
    if 0 <= i < all.len() {
        let m = choose|m: int| 0 <= m < both.len() && both[m] == all[i];
        if m < a.len() {
            assert(a.contains(both[m]));
            names.lemma_filter_contains_rev(first, both[m]);
            names.lemma_filter_pred(first, m);
        } else {
            assert(both[m] == b[m - a.len()]);
            assert(b.contains(both[m]));
            names.lemma_filter_contains_rev(later, both[m]);
            names.lemma_filter_pred(later, m - a.len());
        }
    }
    if 0 <= i < names.len() && may_be_completed(names[i], excluded, query) {
        let at = if first(names[i]) {
            names.lemma_filter_contains(first, i);
            let k = choose|k: int| 0 <= k < a.len() && a[k] == names[i];
            assert(both[k] == names[i]);
            k
        } else {
            names.lemma_filter_contains(later, i);
            let k = choose|k: int| 0 <= k < b.len() && b[k] == names[i];
            assert(both[a.len() + k] == names[i]);
            a.len() + k
        };
        each_name_is_kept_once(both, at, at);
    }
}

// ---------------------------------------------------------------------------
// Prompts
// ---------------------------------------------------------------------------

/// A prompt holds the values that it was given, as JSON strings, and the addresses of its captures.
pub proof fn prompts_hold_their_values(
    exe_path: Seq<char>,
    output_path: Option<Seq<char>>,
    symptom: Option<Seq<char>>,
    uri: Seq<char>,
    other_uri: Seq<char>,
    focus: Seq<char>,
)
    ensures
        has_part(debug_text(exe_path, output_path, symptom), quoted(exe_path)),
        output_path matches Some(text) ==> has_part(
            debug_text(exe_path, output_path, symptom),
            quoted(text),
        ),
        symptom matches Some(text) ==> has_part(
            debug_text(exe_path, output_path, symptom),
            quoted(text),
        ),
        has_part(profile_text(uri, Some(focus)), quoted(focus)),
        has_part(profile_text(uri, Some(focus)), uri),
        has_part(compare_text(uri, other_uri, Some(focus)), quoted(focus)),
        has_part(compare_text(uri, other_uri, Some(focus)), uri),
        has_part(compare_text(uri, other_uri, Some(focus)), other_uri),
{
    lemma_debug_values(exe_path, output_path, symptom);
    lemma_profile_values(uri, focus);
    lemma_compare_values(uri, other_uri, focus);
}

proof fn lemma_middle(whole: Seq<char>, part: Seq<char>, at: int)
    requires
        0 <= at,
        at + part.len() <= whole.len(),
        forall|i: int| 0 <= i < part.len() ==> whole[at + i] == part[i],
    ensures
        has_part(whole, part),
{
    assert(whole.subrange(at, at + part.len()) =~= part);
    assert(crate::text::occurs_at(whole, part, at));
}

proof fn lemma_debug_values(
    exe_path: Seq<char>,
    output_path: Option<Seq<char>>,
    symptom: Option<Seq<char>>,
)
    ensures
        has_part(debug_text(exe_path, output_path, symptom), quoted(exe_path)),
        output_path matches Some(text) ==> has_part(
            debug_text(exe_path, output_path, symptom),
            quoted(text),
        ),
        symptom matches Some(text) ==> has_part(
            debug_text(exe_path, output_path, symptom),
            quoted(text),
        ),
{
    let whole = debug_text(exe_path, output_path, symptom);
    let a = "Debug a DirectX 12 rendering issue with Microsoft PIX.\n\nExecutable: "@;
    let b = a + quoted(exe_path) + "\nCapture destination: "@;
    let c = crate::prompts::quoted_or(output_path, "<ask the user or use MCP elicitation>"@);
    let d = b + c + "\nReported symptom: "@;
    let e = crate::prompts::quoted_or(symptom, "<not supplied>"@);
    assert(whole == d + e + crate::prompts::debug_workflow());
    lemma_middle(whole, quoted(exe_path), a.len() as int);
    lemma_middle(whole, c, b.len() as int);
    lemma_middle(whole, e, d.len() as int);
}

proof fn lemma_profile_values(uri: Seq<char>, focus: Seq<char>)
    ensures
        has_part(profile_text(uri, Some(focus)), quoted(focus)),
        has_part(profile_text(uri, Some(focus)), uri),
{
    let whole = profile_text(uri, Some(focus));
    let a = "Profile the PIX GPU capture resource "@;
    let b = a + uri + ".\n\nFocus: "@;
    assert(whole == b + quoted(focus) + crate::prompts::profile_workflow(uri));
    lemma_middle(whole, uri, a.len() as int);
    lemma_middle(whole, quoted(focus), b.len() as int);
}

proof fn lemma_compare_values(uri: Seq<char>, other_uri: Seq<char>, focus: Seq<char>)
    ensures
        has_part(compare_text(uri, other_uri, Some(focus)), quoted(focus)),
        has_part(compare_text(uri, other_uri, Some(focus)), uri),
        has_part(compare_text(uri, other_uri, Some(focus)), other_uri),
{
    let whole = compare_text(uri, other_uri, Some(focus));
    let a = "Compare two PIX captures without overstating statistical confidence.\n\nBaseline: "@;
    let b = a + uri + "\nCandidate: "@;
    let c = b + other_uri + "\nFocus: "@;
    assert(whole == c + quoted(focus) + crate::prompts::compare_workflow());
    lemma_middle(whole, uri, a.len() as int);
    lemma_middle(whole, other_uri, b.len() as int);
    lemma_middle(whole, quoted(focus), c.len() as int);
}

/// The arguments of the prompt to debug a rendering issue are accepted exactly where each is within
/// its bound, and neither path that is given is blank.
pub proof fn debug_arguments_are_bounded(
    exe_path: Seq<char>,
    output_path: Option<Seq<char>>,
    symptom: Option<Seq<char>>,
)
    ensures
        debug_problem(exe_path, output_path, symptom) is None <==> {
            &&& utf8_len(exe_path) <= 32_768
            &&& !is_blank(exe_path)
            &&& output_path matches Some(text) ==> utf8_len(text) <= 32_768 && !is_blank(text)
            &&& symptom matches Some(text) ==> utf8_len(text) <= 8_192
        },
{
}

/// While one capture of a comparison is completed, the other is left out.
pub proof fn the_other_capture_is_left_out(
    baseline_id: Option<Seq<char>>,
    candidate_id: Option<Seq<char>>,
)
    ensures
        other_capture("baseline_id"@, baseline_id, candidate_id) == candidate_id,
        other_capture("candidate_id"@, baseline_id, candidate_id) == baseline_id,
        kind_of("compare_captures"@, "baseline_id"@) == Some(ArgumentKind::CaptureId),
        kind_of("compare_captures"@, "candidate_id"@) == Some(ArgumentKind::CaptureId),
        kind_of("profile_frame"@, "capture_id"@) == Some(ArgumentKind::CaptureId),
{
    reveal_strlit("baseline_id");
    reveal_strlit("candidate_id");
    reveal_strlit("profile_frame");
    reveal_strlit("compare_captures");
    reveal_strlit("capture_id");
    assert("baseline_id"@[0] == 'b' && "candidate_id"@[0] == 'c');
    assert("compare_captures"@.len() != "profile_frame"@.len());
}

/// A name is that of a capture where it ends with `.wpix`, in any case, and has something before it.
pub proof fn captures_are_named_wpix(before: Seq<char>, after: Seq<char>)
    requires
        before.len() > 0,
        after.len() > 0,
        !after.contains('.'),
    ensures
        is_wpix_name(before + seq!['.'] + after) <==> lower_ascii(after) == lower_ascii("wpix"@),
        !is_wpix_name(after),
        !is_wpix_name(seq!['.'] + after),
{
    let name = before + seq!['.'] + after;
    reveal_strlit(".");
    reveal_strlit("..");
    assert forall|i: int| 0 <= i < after.len() implies #[trigger] after[i] != '.' by {
        assert(after.contains(after[i]));
    }
    assert(name.last() == after.last());
    assert(after[after.len() - 1] != '.');
    assert(name != "."@ && name != ".."@);
    names_are_parted_at_their_last_dot(before, after);
}

/// What is found for an address is the capture that its identifier names.
pub proof fn addresses_find_their_captures(
    r: Result<FoundResource, ResourceReadError>,
    uri: Seq<char>,
    files: Seq<CaptureFile>,
)
    requires
        is_found(r, uri, files),
    ensures
        resource_at(uri) is Err ==> (r matches Err(ResourceReadError::InvalidRequest(_))),
        r matches Ok(found) ==> resource_at(uri) is Ok && match found {
            FoundResource::List => resource_at(uri)->Ok_0 == Resource::List,
            FoundResource::Capture { id, path } => (resource_at(uri)->Ok_0 == Resource::Capture(id@)
                || resource_at(uri)->Ok_0 == Resource::Metadata(id@)) && capture_named(files, id@)
                == Ok::<Seq<char>, Seq<char>>(path@),
            FoundResource::Events { id, path } => resource_at(uri)->Ok_0 == Resource::Events(id@)
                && capture_named(files, id@) == Ok::<Seq<char>, Seq<char>>(path@),
            FoundResource::Counters { id, path } => resource_at(uri)->Ok_0 == Resource::Counters(
                id@,
            ) && capture_named(files, id@) == Ok::<Seq<char>, Seq<char>>(path@),
        },
{
}

/// Captures are put in the order of their names in lower case, and those whose names are equal in
/// lower case in the order of their names.
pub proof fn captures_are_ordered_by_name(a: Seq<char>, b: Seq<char>)
    ensures
        text_less(unicode_lower(a), unicode_lower(b)) ==> name_before(a, b) && !name_before(b, a),
        unicode_lower(a) == unicode_lower(b) ==> (name_before(a, b) <==> text_less(a, b)),
        !name_before(a, a),
        a != b ==> name_before(a, b) || name_before(b, a),
{
    text_less_is_total(a, b);
    text_less_is_total(a, a);
    text_less_is_total(unicode_lower(a), unicode_lower(b));
    text_less_is_total(unicode_lower(a), unicode_lower(a));
}

/// Every platform agrees on an identifier that is a single name.
pub proof fn single_names_are_settled(id: Seq<char>)
    requires
        !id.contains('/') && !id.contains('\\') && !id.contains(':'),
    ensures
        is_settled_id(id),
{
    lemma_single_name(id);
}

/// What the arguments of every prompt hold.
pub proof fn prompts_have_their_arguments(prompt: Seq<char>, argument: Seq<char>)
    ensures
        kind_of(prompt, argument) == Some(ArgumentKind::CaptureId) <==> (prompt
            == "profile_frame"@ && argument == "capture_id"@) || (prompt == "compare_captures"@ && (
        argument == "baseline_id"@ || argument == "candidate_id"@)),
        kind_of(prompt, argument) == Some(ArgumentKind::Path) <==> prompt
            == "debug_rendering_issue"@ && (argument == "exe_path"@ || argument == "output_path"@),
        kind_of(prompt, argument) == Some(ArgumentKind::Text) <==> (prompt
            == "debug_rendering_issue"@ && argument == "symptom"@) || ((prompt == "profile_frame"@
            || prompt == "compare_captures"@) && argument == "focus"@),
{
    reveal_strlit("profile_frame");
    reveal_strlit("compare_captures");
    reveal_strlit("debug_rendering_issue");
    reveal_strlit("capture_id");
    reveal_strlit("baseline_id");
    reveal_strlit("candidate_id");
    reveal_strlit("focus");
    reveal_strlit("exe_path");
    reveal_strlit("output_path");
    reveal_strlit("symptom");
    assert("focus"@.len() == 5 && "symptom"@.len() == 7 && "exe_path"@.len() == 8);
    assert("output_path"@[0] == 'o' && "baseline_id"@[0] == 'b');
}

} // verus!
