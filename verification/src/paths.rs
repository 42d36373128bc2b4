//! File names and their extensions.

use crate::text::{
    chars_of, ends_with, eq_ignoring_case, has_part, optional_text, same_ignoring_case, same_text,
    sub_text,
};
use vstd::prelude::*;
use vstd::string::*;

verus! {

/// Whether a path is one name on every platform: it holds nothing that separates components.
pub open spec fn is_single_name(path: Seq<char>) -> bool {
    !path.contains('/') && !path.contains('\\') && !path.contains(':')
}

/// Whether a name stands for a file: it is not empty and does not stand for a directory.
pub open spec fn names_file(name: Seq<char>) -> bool {
    name.len() > 0 && name != "."@ && name != ".."@
}

/// What follows the last character of a path that separates components on some platform.
pub open spec fn last_name(path: Seq<char>) -> Seq<char>
    decreases path.len(),
{
    if path.len() == 0 || is_divider(path.last()) {
        seq![]
    } else {
        last_name(path.drop_last()).push(path.last())
    }
}

/// Whether a character separates components on some platform.
pub open spec fn is_divider(c: char) -> bool {
    c == '/' || c == '\\' || c == ':'
}

/// Whether a path begins with what names a server or a device on some platform.
pub open spec fn begins_with_server(path: Seq<char>) -> bool {
    path.len() >= 2 && (path[0] == '/' || path[0] == '\\') && (path[1] == '/' || path[1] == '\\')
}

/// Whether a character separates the components of a path that names a server.
pub open spec fn is_slash(c: char) -> bool {
    c == '/' || c == '\\'
}

/// How many characters stand in `s` before the first slash of either kind.
pub open spec fn before_slash(s: Seq<char>) -> nat
    decreases s.len(),
{
    if s.len() == 0 || is_slash(s[0]) {
        0
    } else {
        1 + before_slash(s.skip(1))
    }
}

/// Whether a path that begins with the name of a server goes on behind a share of it, as
/// `//server/share/...` does. What the server is called by must not be a dot or a question mark,
/// which stand for devices.
pub open spec fn goes_behind_share(path: Seq<char>) -> bool {
    let server = path.skip(2);
    let n = before_slash(server);
    let share = server.skip(n as int + 1);
    let m = before_slash(share);
    &&& begins_with_server(path)
    &&& 0 < n < server.len()
    &&& server.take(n as int) != "."@ && server.take(n as int) != "?"@
    &&& 0 < m < share.len()
}

/// Whether the last component of a path is, or ends with, a file name on every platform.
pub open spec fn ends_with_name(path: Seq<char>) -> bool {
    (!begins_with_server(path) || goes_behind_share(path)) && names_file(last_name(path))
}

/// Whether a path has the same components on every platform: only slashes separate them.
pub open spec fn is_portable(path: Seq<char>) -> bool {
    !begins_with_server(path) && !path.contains('\\') && !path.contains(':')
}

/// The file that a path names, if it names one.
pub open spec fn named_file(path: Seq<char>) -> Option<Seq<char>> {
    if names_file(last_name(path)) {
        Some(last_name(path))
    } else {
        None
    }
}

/// Whether every platform agrees on whether a path names a file and on its extension. They
/// disagree where a directory with a dot in its name is followed by a backslash and a name
/// without one, where the path names a server, a share or a device and nothing behind it, and
/// where it ends with a separator.
pub open spec fn is_settled(path: Seq<char>) -> bool {
    if ends_with_name(path) {
        is_portable(path) || last_at(last_name(path), '.') > 0 || !path.contains('.')
    } else {
        is_portable(path) && (is_single_name(path) || last_name(path) == ".."@)
    }
}

/// `std::path::Path::file_name`: the last component of a path, where it is a normal one. What
/// separates components depends on the platform: a slash does on all of them, a backslash and
/// the colon of a drive on some. So the last component of a path that ends with a name is that
/// name, or ends with it where the platform does not take what precedes it for a separator. That
/// holds behind the share of a server, too. Nothing is said of the other paths but that the name
/// is a part of them.
#[verifier::external_body]
pub(crate) fn file_name(path: &str) -> (r: Option<String>)
    ensures
        r matches Some(name) ==> names_file(name@) && has_part(path@, name@),
        ends_with_name(path@) ==> r is Some && ends_with(path@, r->0@) && ends_with(
            r->0@,
            last_name(path@),
        ),
        ends_with_name(path@) && is_portable(path@) ==> r is Some && r->0@ == last_name(path@),
        !ends_with_name(path@) && is_settled(path@) ==> r is None,
{
    let name = std::path::Path::new(path).file_name()?;
    Some(name.to_str()?.to_string())
}

/// Where `c` last stands in `s`; -1 if it does not.
pub open spec fn last_at(s: Seq<char>, c: char) -> int
    decreases s.len(),
{
    if s.len() == 0 {
        -1
    } else if s.last() == c {
        s.len() - 1
    } else {
        last_at(s.drop_last(), c)
    }
}

pub proof fn lemma_last_at(s: Seq<char>, c: char)
    ensures
        -1 <= last_at(s, c) < s.len(),
        last_at(s, c) >= 0 ==> s[last_at(s, c)] == c,
        forall|k: int| last_at(s, c) < k < s.len() ==> s[k] != c,
    decreases s.len(),
{
    if s.len() > 0 && s.last() != c {
        lemma_last_at(s.drop_last(), c);
        assert forall|k: int| last_at(s, c) < k < s.len() implies s[k] != c by {
            if k < s.len() - 1 {
                assert(s[k] == s.drop_last()[k]);
            }
        }
    }
}

fn find_last(s: &Vec<char>, c: char) -> (r: Option<usize>)
    ensures
        match r {
            Some(at) => at == last_at(s@, c),
            None => last_at(s@, c) == -1,
        },
{
    let mut end: usize = s.len();
    assert(s@.take(end as int) =~= s@);
    while end > 0
        invariant
            end <= s.len(),
            last_at(s@, c) == last_at(s@.take(end as int), c),
        decreases end,
    {
        assert(s@.take(end as int).last() == s@[end - 1]);
        assert(s@.take(end as int).drop_last() =~= s@.take(end - 1));
        if s[end - 1] == c {
            return Some(end - 1);
        }
        end -= 1;
    }
    None
}

/// The last component of a name in which slashes separate components: what stands behind the last
/// slash. A slash at the end, and a component that is one dot, do not count. There is none where
/// that leaves nothing, or two dots.
pub open spec fn last_component(name: Seq<char>) -> Option<Seq<char>>
    decreases name.len(),
{
    proof {
        lemma_last_at(name, '/');
    }
    let slash = last_at(name, '/');
    let tail = name.skip(slash + 1);
    if names_file(tail) {
        Some(tail)
    } else if slash >= 0 && tail != ".."@ {
        last_component(name.take(slash))
    } else {
        None
    }
}

/// Finds the last component of a name in which slashes separate components.
pub fn find_last_component(name: &str) -> (r: Option<String>)
    ensures
        optional_text(r) == last_component(name@),
{
    let chars = chars_of(name);
    let mut end: usize = chars.len();
    assert(name@.take(end as int) =~= name@);
    loop
        invariant
            chars@ == name@,
            end <= chars.len(),
            last_component(name@) == last_component(name@.take(end as int)),
        decreases end,
    {
        let ghost head = name@.take(end as int);
        let mut start: usize = end;
        assert(head.take(start as int) =~= head);
        while start > 0 && chars[start - 1] != '/'
            invariant
                chars@ == name@,
                start <= end <= chars.len(),
                head == name@.take(end as int),
                last_at(head, '/') == last_at(head.take(start as int), '/'),
            decreases start,
        {
            assert(head.take(start as int).last() == name@[start - 1]);
            assert(head.take(start as int).drop_last() =~= head.take(start - 1));
            start -= 1;
        }
        assert(start > 0 ==> head.take(start as int).last() == name@[start - 1]);
        assert(last_at(head, '/') == start - 1);
        let tail = sub_text(&chars, start, end);
        assert(tail@ =~= head.skip(start as int));
        if same_text(&tail, "..") {
            return None;
        }
        if !tail.as_str().is_empty() && !same_text(&tail, ".") {
            return Some(tail);
        }
        if start == 0 {
            return None;
        }
        assert(head.take(start - 1) =~= name@.take(start - 1));
        end = start - 1;
    }
}

/// What stands behind the last dot of a file name, unless that dot is its first character.
pub open spec fn extension(name: Seq<char>) -> Option<Seq<char>> {
    let dot = last_at(name, '.');
    if dot <= 0 {
        None
    } else {
        Some(name.subrange(dot + 1, name.len() as int))
    }
}

/// The extension of a file name.
pub fn extension_of(name: &str) -> (r: Option<String>)
    ensures
        r is Some == extension(name@) is Some,
        r matches Some(text) ==> text@ == extension(name@)->0,
{
    let chars = chars_of(name);
    proof {
        lemma_last_at(name@, '.');
    }
    match find_last(&chars, '.') {
        Some(dot) => if dot == 0 {
            None
        } else {
            Some(sub_text(&chars, dot + 1, chars.len()))
        },
        None => None,
    }
}

/// A file name without its extension and the dot before it.
pub open spec fn stem(name: Seq<char>) -> Seq<char> {
    let dot = last_at(name, '.');
    if dot <= 0 {
        name
    } else {
        name.subrange(0, dot)
    }
}

pub fn stem_of(name: &str) -> (r: String)
    ensures
        r@ == stem(name@),
{
    let chars = chars_of(name);
    proof {
        lemma_last_at(name@, '.');
    }
    match find_last(&chars, '.') {
        Some(dot) => if dot == 0 {
            name.to_string()
        } else {
            sub_text(&chars, 0, dot)
        },
        None => name.to_string(),
    }
}

/// The extension of an optional file name.
pub open spec fn optional_extension(name: Option<Seq<char>>) -> Option<Seq<char>> {
    match name {
        Some(text) => extension(text),
        None => None,
    }
}

pub proof fn lemma_last_name(path: Seq<char>)
    ensures
        ends_with(path, last_name(path)),
    decreases path.len(),
{
    if path.len() > 0 && !is_divider(path.last()) {
        lemma_last_name(path.drop_last());
    }
    assert(path.subrange(path.len() - last_name(path).len(), path.len() as int)
        =~= last_name(path));
}

/// Every platform agrees on a path that is one name.
pub proof fn lemma_single_name(path: Seq<char>)
    requires
        is_single_name(path),
    ensures
        last_name(path) == path,
        is_portable(path),
        is_settled(path),
    decreases path.len(),
{
    if path.len() > 0 {
        let rest = path.drop_last();
        assert(forall|c: char| rest.contains(c) ==> path.contains(c)) by {
            assert forall|c: char| rest.contains(c) implies path.contains(c) by {
                let i = rest.index_of(c);
                assert(path[i] == c);
            }
        }
        lemma_single_name(rest);
        assert(path.contains(path.last()));
        assert(rest.push(path.last()) =~= path);
        assert(path.contains(path[0]));
    }
}

proof fn lemma_before_slash(s: Seq<char>, more: Seq<char>)
    ensures
        before_slash(s) <= s.len(),
        before_slash(s) < s.len() ==> before_slash(s + more) == before_slash(s),
    decreases s.len(),
{
    if s.len() > 0 && !is_slash(s[0]) {
        lemma_before_slash(s.skip(1), more);
        assert((s + more).skip(1) =~= s.skip(1) + more);
    }
}

/// What goes on behind a share does so however much is appended.
pub proof fn lemma_share_stays(path: Seq<char>, more: Seq<char>)
    requires
        goes_behind_share(path),
    ensures
        goes_behind_share(path + more),
{
    let server = path.skip(2);
    let n = before_slash(server);
    let share = server.skip(n as int + 1);
    lemma_before_slash(server, more);
    lemma_before_slash(share, more);
    assert((path + more).skip(2) =~= server + more);
    assert((server + more).skip(n as int + 1) =~= share + more);
    assert((server + more).take(n as int) =~= server.take(n as int));
}

/// What ends with a name that has a dot inside has the extension of that name.
proof fn lemma_extension_of_end(name: Seq<char>, end: Seq<char>)
    requires
        ends_with(name, end),
        last_at(end, '.') > 0,
    ensures
        extension(name) == extension(end),
{
    let off = name.len() - end.len();
    lemma_last_at(name, '.');
    lemma_last_at(end, '.');
    assert(name.subrange(off, name.len() as int) =~= end);
    assert forall|k: int| 0 <= k < end.len() implies name[off + k] == #[trigger] end[k] by {
        assert(name.subrange(off, name.len() as int)[k] == name[off + k]);
    }
    let dot = last_at(end, '.');
    assert(name[off + dot] == '.');
    let found = last_at(name, '.');
    if found < off + dot {
        assert(name[off + dot] != '.');
    }
    if found > off + dot {
        assert(end[found - off] == '.');
    }
    assert(name.subrange(found + 1, name.len() as int) =~= end.subrange(
        dot + 1,
        end.len() as int,
    ));
}

/// Where the platforms agree on a path, its last component has the extension of its name.
proof fn lemma_settled_extension(path: Seq<char>, name: Seq<char>)
    requires
        ends_with_name(path),
        is_settled(path),
        ends_with(path, name),
        ends_with(name, last_name(path)),
        is_portable(path) ==> name == last_name(path),
    ensures
        extension(name) == extension(last_name(path)),
{
    if !is_portable(path) {
        if last_at(last_name(path), '.') > 0 {
            lemma_extension_of_end(name, last_name(path));
        } else {
            lemma_last_name(path);
            lemma_no_dot(path, name);
            lemma_no_dot(path, last_name(path));
        }
    }
}

proof fn lemma_no_dot(path: Seq<char>, end: Seq<char>)
    requires
        ends_with(path, end),
        !path.contains('.'),
    ensures
        last_at(end, '.') == -1,
{
    lemma_last_at(end, '.');
    let at = last_at(end, '.');
    if at >= 0 {
        let off = path.len() - end.len();
        assert(path.subrange(off, path.len() as int) =~= end);
        assert(path.subrange(off, path.len() as int)[at] == path[off + at]);
        assert(path.contains('.'));
    }
}

/// The extension of the file that a path names.
pub fn path_extension(path: &str) -> (r: Option<String>)
    ensures
        is_settled(path@) ==> optional_text(r) == optional_extension(named_file(path@)),
{
    match file_name(path) {
        Some(name) => {
            proof {
                if is_settled(path@) {
                    lemma_settled_extension(path@, name@);
                }
            }
            extension_of(&name)
        },
        None => None,
    }
}

/// A path whose last component has its extension replaced, or added where it has none.
pub open spec fn replaced_extension(path: Seq<char>, extension: Seq<char>) -> Seq<char> {
    match named_file(path) {
        Some(name) => path.take(path.len() - name.len()) + stem(name) + seq!['.'] + extension,
        None => path,
    }
}

/// Whether the file that a path names, if it names one, has more before its extension than a
/// dot.
pub open spec fn has_proper_stem(path: Seq<char>) -> bool {
    match named_file(path) {
        Some(name) => stem(name) != "."@,
        None => true,
    }
}

/// `std::path::Path::with_extension`: a path with the extension of its last component
/// replaced, or added where it has none. A path without a last component stays as it is.
/// Nothing is said of a path on whose last component or its extension the platforms disagree,
/// nor of one whose file name has a single dot before its extension.
#[verifier::external_body]
pub(crate) fn with_extension(path: &str, extension: &str) -> (r: String)
    requires
        extension@.len() > 0,
        is_single_name(extension@),
    ensures
        is_settled(path@) && has_proper_stem(path@) ==> r@ == replaced_extension(
            path@,
            extension@,
        ),
{
    std::path::Path::new(path).with_extension(extension).to_string_lossy().into_owned()
}

/// Whether a file name has the extension `expected`, in any case.
pub open spec fn has_extension(name: Seq<char>, expected: Seq<char>) -> bool {
    match extension(name) {
        Some(text) => same_ignoring_case(text, expected),
        None => false,
    }
}

pub fn name_has_extension(name: &str, expected: &str) -> (r: bool)
    ensures
        r == has_extension(name@, expected@),
{
    match extension_of(name) {
        Some(text) => eq_ignoring_case(&text, expected),
        None => false,
    }
}

/// Whether an optional file name has the extension `expected`.
pub open spec fn optional_has_extension(name: Option<Seq<char>>, expected: Seq<char>) -> bool {
    match name {
        Some(text) => has_extension(text, expected),
        None => false,
    }
}

/// Whether the file that a path names has the extension `expected`, in any case.
pub fn has_extension_ignore_ascii_case(path: &str, expected: &str) -> (r: bool)
    ensures
        is_settled(path@) ==> r == optional_has_extension(named_file(path@), expected@),
{
    match path_extension(path) {
        Some(text) => eq_ignoring_case(&text, expected),
        None => false,
    }
}

} // verus!
