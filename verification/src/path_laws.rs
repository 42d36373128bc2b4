//! What holds of paths, file names and their extensions, and of where captures are saved.

use crate::capture::wpix_output;
use crate::paths::{
    before_slash, begins_with_server, ends_with_name, extension, has_extension, has_proper_stem,
    is_divider, is_portable, is_settled, is_slash, last_at, last_component, last_name,
    lemma_last_at, named_file, replaced_extension, stem,
};
use crate::text::{is_blank, lower_ascii, same_ignoring_case};
use vstd::prelude::*;
use vstd::string::*;

verus! {

proof fn lemma_last_at_is(s: Seq<char>, c: char, at: int)
    requires
        0 <= at < s.len(),
        s[at] == c,
        forall|k: int| at < k < s.len() ==> s[k] != c,
    ensures
        last_at(s, c) == at,
{
    lemma_last_at(s, c);
    let found = last_at(s, c);
    if found < at {
        assert(s[at] != c);
    }
    if at < found {
        assert(s[found] != c);
    }
}

/// The extension of a file name is what stands behind its last dot, and the stem what stands before
/// it. A dot that the name begins with is no such dot, and a name without one has no extension.
pub proof fn names_are_parted_at_their_last_dot(before: Seq<char>, after: Seq<char>)
    requires
        before.len() > 0,
        forall|i: int| 0 <= i < after.len() ==> #[trigger] after[i] != '.',
    ensures
        extension(before + seq!['.'] + after) == Some(after),
        stem(before + seq!['.'] + after) == before,
        extension(after) is None,
        stem(after) == after,
        extension(seq!['.'] + after) is None,
        stem(seq!['.'] + after) == seq!['.'] + after,
{
    let name = before + seq!['.'] + after;
    let n = before.len() as int;
    assert forall|k: int| n < k < name.len() implies name[k] != '.' by {
        assert(name[k] == after[k - n - 1]);
    }
    lemma_last_at_is(name, '.', n);
    assert(name.subrange(n + 1, name.len() as int) =~= after);
    assert(name.subrange(0, n) =~= before);
    lemma_last_at(after, '.');
    let hidden = seq!['.'] + after;
    assert forall|k: int| 0 < k < hidden.len() implies hidden[k] != '.' by {
        assert(hidden[k] == after[k - 1]);
    }
    lemma_last_at_is(hidden, '.', 0);
}

/// A file name has an extension where it ends with a dot and the extension, in any case.
pub proof fn extensions_are_told_in_any_case(
    before: Seq<char>,
    after: Seq<char>,
    expected: Seq<char>,
)
    requires
        before.len() > 0,
        forall|i: int| 0 <= i < after.len() ==> #[trigger] after[i] != '.',
    ensures
        has_extension(before + seq!['.'] + after, expected) <==> lower_ascii(after) == lower_ascii(
            expected,
        ),
        !has_extension(after, expected),
{
    names_are_parted_at_their_last_dot(before, after);
}

proof fn lemma_last_name_of(directory: Seq<char>, name: Seq<char>)
    requires
        forall|i: int| 0 <= i < name.len() ==> !is_divider(#[trigger] name[i]),
        directory.len() == 0 || is_divider(directory[directory.len() - 1]),
    ensures
        last_name(directory + name) == name,
    decreases name.len(),
{
    let path = directory + name;
    if name.len() > 0 {
        let head = name.drop_last();
        assert forall|i: int| 0 <= i < head.len() implies !is_divider(#[trigger] head[i]) by {
            assert(head[i] == name[i]);
        }
        lemma_last_name_of(directory, head);
        assert(path.last() == name.last());
        assert(!is_divider(name[name.len() - 1]));
        assert(path.drop_last() =~= directory + head);
        assert(head.push(name.last()) =~= name);
    } else {
        assert(path =~= directory);
        assert(name =~= Seq::<char>::empty());
    }
}

/// The last name of a path is what follows the last slash, backslash or colon in it.
pub proof fn paths_end_with_their_last_name(directory: Seq<char>, name: Seq<char>)
    requires
        !name.contains('/') && !name.contains('\\') && !name.contains(':'),
        directory.len() == 0 || directory[directory.len() - 1] == '/'
            || directory[directory.len() - 1] == '\\' || directory[directory.len() - 1] == ':',
    ensures
        last_name(directory + name) == name,
        name.len() > 0 && name != "."@ && name != ".."@ ==> named_file(directory + name) == Some(
            name,
        ),
        name.len() == 0 || name == "."@ || name == ".."@ ==> named_file(directory + name) is None,
{
    assert forall|i: int| 0 <= i < name.len() implies !is_divider(#[trigger] name[i]) by {
        if is_divider(name[i]) {
            assert(name.contains(name[i]));
        }
    }
    lemma_last_name_of(directory, name);
}

/// Replacing the extension of the file that a path names leaves everything before it alone.
pub proof fn replaced_extensions_keep_the_rest(
    directory: Seq<char>,
    name: Seq<char>,
    old_extension: Seq<char>,
    new_extension: Seq<char>,
)
    requires
        name.len() > 0,
        !name.contains('/') && !name.contains('\\') && !name.contains(':'),
        !old_extension.contains('/') && !old_extension.contains('\\') && !old_extension.contains(
            ':',
        ) && !old_extension.contains('.'),
        old_extension.len() > 0,
        directory.len() == 0 || directory[directory.len() - 1] == '/'
            || directory[directory.len() - 1] == '\\' || directory[directory.len() - 1] == ':',
    ensures
        replaced_extension(directory + (name + seq!['.'] + old_extension), new_extension)
            == directory + name + seq!['.'] + new_extension,
{
    let whole = name + seq!['.'] + old_extension;
    let path = directory + whole;
    reveal_strlit(".");
    reveal_strlit("..");
    lemma_no_divider(name, old_extension);
    paths_end_with_their_last_name(directory, whole);
    assert forall|i: int| 0 <= i < old_extension.len() implies #[trigger] old_extension[i]
        != '.' by {
        if old_extension[i] == '.' {
            assert(old_extension.contains('.'));
        }
    }
    names_are_parted_at_their_last_dot(name, old_extension);
    assert(whole.last() == old_extension.last());
    assert(old_extension[old_extension.len() - 1] != '.');
    assert(whole != "."@ && whole != ".."@);
    assert(path.take(path.len() - whole.len()) =~= directory);
}

proof fn lemma_no_divider(name: Seq<char>, ext: Seq<char>)
    requires
        !name.contains('/') && !name.contains('\\') && !name.contains(':'),
        !ext.contains('/') && !ext.contains('\\') && !ext.contains(':'),
    ensures
        ({
            let whole = name + seq!['.'] + ext;
            !whole.contains('/') && !whole.contains('\\') && !whole.contains(':')
        }),
{
    let whole = name + seq!['.'] + ext;
    assert forall|i: int| 0 <= i < whole.len() implies !is_divider(#[trigger] whole[i]) by {
        if i < name.len() {
            assert(whole[i] == name[i]);
            assert(name.contains(name[i]));
        } else if i > name.len() {
            assert(whole[i] == ext[i - name.len() - 1]);
            assert(ext.contains(ext[i - name.len() - 1]));
        }
    }
    assert(forall|c: char| whole.contains(c) ==> !is_divider(c));
}

/// A capture is saved under the name that was given, which must end with `.wpix`, in any case, or
/// has it added where it has no extension; another extension is refused, and so are a blank path
/// and a directory.
pub proof fn captures_are_saved_as_wpix(
    directory: Seq<char>,
    name: Seq<char>,
    ext: Seq<char>,
    label: Seq<char>,
)
    requires
        name.len() > 0,
        !name.contains('/') && !name.contains('\\') && !name.contains(':'),
        !ext.contains('/') && !ext.contains('\\') && !ext.contains(':') && !ext.contains('.'),
        ext.len() > 0,
        directory.len() == 0 || directory[directory.len() - 1] == '/'
            || directory[directory.len() - 1] == '\\' || directory[directory.len() - 1] == ':',
    ensures
        ({
            let dotted = directory + (name + seq!['.'] + ext);
            let plain = directory + ext;
            &&& same_ignoring_case(ext, "wpix"@) && !is_blank(dotted) ==> wpix_output(
                dotted,
                label,
                false,
            ) == Ok::<Seq<char>, Seq<char>>(dotted)
            &&& !same_ignoring_case(ext, "wpix"@) ==> wpix_output(dotted, label, false) is Err
            &&& !is_blank(plain) ==> wpix_output(plain, label, false) == Ok::<
                Seq<char>,
                Seq<char>,
            >(plain + ".wpix"@)
            &&& wpix_output(dotted, label, true) is Err
            &&& is_blank(plain) ==> wpix_output(plain, label, false) is Err
        }),
{
    let whole = name + seq!['.'] + ext;
    reveal_strlit(".");
    reveal_strlit("..");
    lemma_no_divider(name, ext);
    paths_end_with_their_last_name(directory, whole);
    paths_end_with_their_last_name(directory, ext);
    assert forall|i: int| 0 <= i < ext.len() implies #[trigger] ext[i] != '.' by {
        if ext[i] == '.' {
            assert(ext.contains('.'));
        }
    }
    names_are_parted_at_their_last_dot(name, ext);
    assert(whole.last() == ext.last());
    assert(ext[ext.len() - 1] != '.');
    assert(whole != "."@ && whole != ".."@);
    assert(ext[0] != '.');
    assert(ext != "."@ && ext != ".."@);
}

/// The last component of a name is what stands behind its last slash; a slash at the end, and a
/// component that is one dot, change nothing; and what ends with two dots has none.
pub proof fn last_components_stand_behind_the_last_slash(before: Seq<char>, name: Seq<char>)
    requires
        !name.contains('/'),
        name.len() > 0,
        name != "."@,
        name != ".."@,
    ensures
        last_component(name) == Some(name),
        last_component(before + seq!['/'] + name) == Some(name),
        last_component(before + seq!['/']) == last_component(before),
        last_component(before + seq!['/'] + "."@) == last_component(before),
        last_component(before + seq!['/'] + ".."@) is None,
{
    reveal_strlit(".");
    reveal_strlit("..");
    lemma_behind_slash(before, name);
    lemma_behind_slash(before, "."@);
    lemma_behind_slash(before, ".."@);
    lemma_behind_slash(before, Seq::empty());
    assert(before + seq!['/'] + Seq::<char>::empty() =~= before + seq!['/']);
    lemma_last_at(name, '/');
    assert(last_at(name, '/') == -1) by {
        if last_at(name, '/') >= 0 {
            assert(name.contains(name[last_at(name, '/')]));
        }
    }
    assert(name.skip(0) =~= name);
}

proof fn lemma_behind_slash(before: Seq<char>, tail: Seq<char>)
    requires
        !tail.contains('/'),
    ensures
        ({
            let whole = before + seq!['/'] + tail;
            &&& last_at(whole, '/') == before.len()
            &&& whole.skip(before.len() as int + 1) == tail
            &&& whole.take(before.len() as int) == before
        }),
{
    let whole = before + seq!['/'] + tail;
    let n = before.len() as int;
    assert forall|k: int| n < k < whole.len() implies whole[k] != '/' by {
        assert(whole[k] == tail[k - n - 1]);
        assert(tail.contains(tail[k - n - 1]));
    }
    lemma_last_at_is(whole, '/', n);
    assert(whole.skip(n + 1) =~= tail);
    assert(whole.take(n) =~= before);
}

// ---------------------------------------------------------------------------
// Paths that every platform reads alike
// ---------------------------------------------------------------------------

/// Every platform reads a path alike whose components only slashes separate and that does not begin
/// with two of them; and one that ends with a name with a dot inside, whatever separates it from what
/// stands before it, unless that names a server.
pub proof fn ordinary_paths_are_settled(
    directory: Seq<char>,
    name: Seq<char>,
    before: Seq<char>,
    after: Seq<char>,
)
    requires
        !name.contains('/') && !name.contains('\\') && !name.contains(':'),
        name.len() > 0 && name != "."@ && name != ".."@,
        directory.len() == 0 || directory[directory.len() - 1] == '/'
            || directory[directory.len() - 1] == '\\' || directory[directory.len() - 1] == ':',
        !(directory.len() >= 2 && (directory[0] == '/' || directory[0] == '\\') && (directory[1]
            == '/' || directory[1] == '\\')),
        before.len() > 0,
        !after.contains('.'),
    ensures
        !directory.contains('\\') && !directory.contains(':') ==> is_settled(directory + name),
        name == before + seq!['.'] + after ==> is_settled(directory + name),
        !directory.contains('.') && !name.contains('.') ==> is_settled(directory + name),
        ends_with_name(directory + name),
        name == before + seq!['.'] + after && after.len() > 0 && before != "."@
            ==> has_proper_stem(directory + name),
{
    let path = directory + name;
    paths_end_with_their_last_name(directory, name);
    assert(!begins_with_server(path)) by {
        if begins_with_server(path) {
            if directory.len() >= 2 {
                assert(path[0] == directory[0] && path[1] == directory[1]);
            } else if directory.len() == 1 {
                assert(path[1] == name[0]);
                assert(name.contains(name[0]));
            } else {
                assert(path[0] == name[0]);
                assert(name.contains(name[0]));
            }
        }
    }
    lemma_either_has(directory, name, '\\');
    lemma_either_has(directory, name, ':');
    lemma_either_has(directory, name, '.');
    if name == before + seq!['.'] + after {
        assert forall|i: int| 0 <= i < after.len() implies #[trigger] after[i] != '.' by {
            assert(after.contains(after[i]));
        }
        names_are_parted_at_their_last_dot(before, after);
        let n = before.len() as int;
        assert forall|k: int| n < k < name.len() implies name[k] != '.' by {
            assert(name[k] == after[k - n - 1]);
        }
        lemma_last_at_is(name, '.', n);
    }
}

proof fn lemma_either_has(a: Seq<char>, b: Seq<char>, c: char)
    ensures
        (a + b).contains(c) ==> a.contains(c) || b.contains(c),
{
    let s = a + b;
    if s.contains(c) {
        let k = choose|k: int| 0 <= k < s.len() && s[k] == c;
        if k < a.len() {
            assert(a.contains(a[k]));
        } else {
            assert(b.contains(b[k - a.len()]));
        }
    }
}

/// So is a file with a dot in its name behind the share of a server.
pub proof fn files_behind_a_share_are_settled(
    server: Seq<char>,
    share: Seq<char>,
    before: Seq<char>,
    after: Seq<char>,
)
    requires
        server.len() > 0 && server != "."@ && server != "?"@,
        share.len() > 0,
        forall|i: int| 0 <= i < server.len() ==> !is_slash(#[trigger] server[i]),
        forall|i: int| 0 <= i < share.len() ==> !is_slash(#[trigger] share[i]),
        before.len() > 0 && after.len() > 0,
        !before.contains('/') && !before.contains('\\') && !before.contains(':'),
        !after.contains('/') && !after.contains('\\') && !after.contains(':') && !after.contains(
            '.',
        ),
    ensures
        is_settled(
            seq!['\\', '\\'] + server + seq!['\\'] + share + seq!['\\'] + (before + seq!['.']
                + after),
        ),
{
    let name = before + seq!['.'] + after;
    let directory = seq!['\\', '\\'] + server + seq!['\\'] + share + seq!['\\'];
    let path = directory + name;
    reveal_strlit(".");
    reveal_strlit("..");
    lemma_no_divider(before, after);
    assert(directory[directory.len() - 1] == '\\');
    paths_end_with_their_last_name(directory, name);
    assert forall|i: int| 0 <= i < after.len() implies #[trigger] after[i] != '.' by {
        assert(after.contains(after[i]));
    }
    let n = before.len() as int;
    assert forall|k: int| n < k < name.len() implies name[k] != '.' by {
        assert(name[k] == after[k - n - 1]);
    }
    lemma_last_at_is(name, '.', n);
    assert(name.last() == after.last());
    assert(after[after.len() - 1] != '.');
    assert(name != "."@ && name != ".."@);
    let rest = path.skip(2);
    let tail = share + seq!['\\'] + name;
    assert(rest =~= server + seq!['\\'] + tail);
    lemma_before_slash_is(server, tail);
    assert(rest.take(server.len() as int) =~= server);
    assert(rest.skip(server.len() as int + 1) =~= tail);
    lemma_before_slash_is(share, name);
    assert(begins_with_server(path)) by {
        assert(path[0] == '\\' && path[1] == '\\');
    }
}

proof fn lemma_before_slash_is(word: Seq<char>, rest: Seq<char>)
    requires
        forall|i: int| 0 <= i < word.len() ==> !is_slash(#[trigger] word[i]),
    ensures
        before_slash(word + seq!['\\'] + rest) == word.len(),
    decreases word.len(),
{
    let s = word + seq!['\\'] + rest;
    if word.len() > 0 {
        let tail = word.skip(1);
        assert forall|i: int| 0 <= i < tail.len() implies !is_slash(#[trigger] tail[i]) by {
            assert(tail[i] == word[i + 1]);
        }
        lemma_before_slash_is(tail, rest);
        assert(s[0] == word[0]);
        assert(s.skip(1) =~= tail + seq!['\\'] + rest);
    } else {
        assert(s[0] == '\\');
    }
}

/// A path has the same components on every platform only where no backslash and no colon is in it
/// and it does not begin with two slashes.
pub proof fn portable_paths_have_slashes_only(path: Seq<char>)
    ensures
        is_portable(path) <==> !path.contains('\\') && !path.contains(':') && !(path.len() >= 2
            && path[0] == '/' && path[1] == '/'),
{
    if path.len() >= 2 {
        assert(path.contains(path[0]));
        assert(path.contains(path[1]));
    }
}

} // verus!
