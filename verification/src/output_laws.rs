//! What holds of the output of `pixtool`: which lines are errors and warnings, what they lead to,
//! and which counters are listed.

use crate::analysis::{
    artifact_problem, counter_listing_problem, counter_names, is_counter_line, matching,
    playback_problem, wanted_counters, CommandOutput, CountersReport,
};
use crate::budget::{all_cut, fitting_items_keep_within_the_limit, kept, kept_count};
use crate::diagnostics::{
    all_lines, announces, asks_for_developer_mode, combined_output, counts, developer_mode_guidance,
    error_lines, first_error, has_count, indicates_failure, is_count, is_counted, is_error_line,
    is_incomplete, names, negates, picked, reports, reports_issue, says, warning_lines,
};
use crate::numbers::unsigned;
use crate::order::{ascending, distinct_sorted, distinct_sorted_has_the_same_texts};
use crate::text::{
    alphanumeric, has_part, is_blank, lines, lower_ascii, non_empty, occurs_at, runs, starts_with,
    texts, trimmed, unicode_lower,
};
use crate::text_laws::{
    found_parts_are_there, parts_are_found_anywhere, parts_of_parts_are_parts,
    trimming_takes_white_space_off,
};
use vstd::prelude::*;
use vstd::string::*;

verus! {

// ---------------------------------------------------------------------------
// Errors
// ---------------------------------------------------------------------------

/// A line in lower case that says, in one of the ways that count, that something failed.
pub open spec fn tells_of_an_error(low: Seq<char>, before: Seq<char>, after: Seq<char>) -> bool {
    ||| low == "failed"@ + after
    ||| low == before + " failed"@ + after
    ||| low == "fatal"@ + after
    ||| low == before + "exception"@ + after
    ||| low == before + "e_pix_"@ + after
    ||| low == before + "cannot open"@ + after
    ||| low == before + "could not open"@ + after
    ||| low == "error:"@ + after
    ||| low == "[error]"@ + after
    ||| low == before + " error:"@ + after
    ||| low == before + "[error]"@ + after
}

/// A line that begins with `failed` or `fatal`, has ` failed`, `exception`, `e_pix_`, `cannot open`
/// or `could not open` anywhere in it, or announces an error, is an error, in any case and with
/// any white space around it.
pub proof fn lines_that_tell_of_an_error_are_errors(
    line: Seq<char>,
    before: Seq<char>,
    after: Seq<char>,
)
    requires
        tells_of_an_error(unicode_lower(trimmed(line)), before, after),
    ensures
        is_error_line(line),
{
    let low = unicode_lower(trimmed(line));
    let none = Seq::<char>::empty();
    parts_are_found_anywhere(none, "failed"@, after);
    parts_are_found_anywhere(before, " failed"@, after);
    parts_are_found_anywhere(none, "fatal"@, after);
    parts_are_found_anywhere(before, "exception"@, after);
    parts_are_found_anywhere(before, "e_pix_"@, after);
    parts_are_found_anywhere(before, "cannot open"@, after);
    parts_are_found_anywhere(before, "could not open"@, after);
    lemma_announcements("error"@, low, before, after);
    reveal_strlit("error:");
    reveal_strlit("[error]");
    reveal_strlit(" error:");
    reveal_strlit("error");
    reveal_strlit(":");
    reveal_strlit("[");
    reveal_strlit("]");
    reveal_strlit(" ");
    assert("error:"@ =~= "error"@ + ":"@);
    assert("[error]"@ =~= "["@ + "error"@ + "]"@);
    assert(" error:"@ =~= " "@ + "error"@ + ":"@);
}

/// A line that begins with an issue and a colon, or with the issue in square brackets, or has
/// either behind a space or anywhere in it, announces the issue.
proof fn lemma_announcements(
    issue: Seq<char>,
    low: Seq<char>,
    before: Seq<char>,
    after: Seq<char>,
)
    ensures
        low == issue + ":"@ + after ==> announces(low, issue),
        low == "["@ + issue + "]"@ + after ==> announces(low, issue),
        low == before + (" "@ + issue + ":"@) + after ==> announces(low, issue),
        low == before + ("["@ + issue + "]"@) + after ==> announces(low, issue),
{
    reveal_strlit("");
    let none = Seq::<char>::empty();
    assert(""@ + issue + ":"@ =~= issue + ":"@);
    parts_are_found_anywhere(none, issue + ":"@, after);
    parts_are_found_anywhere(none, "["@ + issue + "]"@, after);
    parts_are_found_anywhere(before, " "@ + issue + ":"@, after);
    parts_are_found_anywhere(before, "["@ + issue + "]"@, after);
}

/// A line that announces a warning is a warning, as one that announces an error is an error.
pub proof fn lines_that_announce_a_warning_are_warnings(
    line: Seq<char>,
    before: Seq<char>,
    after: Seq<char>,
)
    requires
        ({
            let low = unicode_lower(trimmed(line));
            ||| low == "warning:"@ + after
            ||| low == "[warning]"@ + after
            ||| low == before + " warning:"@ + after
            ||| low == before + "[warning]"@ + after
        }),
    ensures
        reports_issue(line, "warning"@),
{
    lemma_announcements("warning"@, unicode_lower(trimmed(line)), before, after);
    reveal_strlit("warning:");
    reveal_strlit("[warning]");
    reveal_strlit(" warning:");
    reveal_strlit("warning");
    reveal_strlit(":");
    reveal_strlit("[");
    reveal_strlit("]");
    reveal_strlit(" ");
    assert("warning:"@ =~= "warning"@ + ":"@);
    assert("[warning]"@ =~= "["@ + "warning"@ + "]"@);
    assert(" warning:"@ =~= " "@ + "warning"@ + ":"@);
}

/// Every word of a text stands in it.
proof fn lemma_runs_are_parts(s: Seq<char>, k: int)
    requires
        0 <= k < runs(s).len(),
    ensures
        has_part(s, runs(s)[k]),
        k == runs(s).len() - 1 ==> occurs_at(s, runs(s)[k], s.len() - runs(s)[k].len()),
    decreases s.len(),
{
    if s.len() == 0 {
        assert(s.subrange(0, 0) =~= s);
        assert(occurs_at(s, s, 0));
    } else {
        let head = s.drop_last();
        let before = runs(head);
        if alphanumeric(s.last()) {
            lemma_runs_are_some(head);
            if k == before.len() - 1 {
                lemma_runs_are_parts(head, k);
                let word = before[k];
                let at = head.len() - word.len();
                assert(head.subrange(at, at + word.len()) == word);
                assert(s.subrange(at, at + word.len() + 1) =~= word.push(s.last()));
                assert(runs(s)[k] == word.push(s.last()));
                assert(occurs_at(s, runs(s)[k], at));
            } else {
                lemma_runs_are_parts(head, k);
                lemma_part_of_head(s, before[k]);
            }
        } else if k < before.len() {
            lemma_runs_are_parts(head, k);
            lemma_part_of_head(s, before[k]);
        } else {
            assert(s.subrange(s.len() as int, s.len() as int) =~= Seq::<char>::empty());
            assert(occurs_at(s, runs(s)[k], s.len() as int));
        }
    }
}

proof fn lemma_runs_are_some(s: Seq<char>)
    ensures
        runs(s).len() > 0,
    decreases s.len(),
{
    if s.len() > 0 {
        lemma_runs_are_some(s.drop_last());
    }
}

proof fn lemma_part_of_head(s: Seq<char>, part: Seq<char>)
    requires
        s.len() > 0,
        has_part(s.drop_last(), part),
    ensures
        has_part(s, part),
{
    let at = choose|at: int| occurs_at(s.drop_last(), part, at);
    assert(s.subrange(at, at + part.len()) =~= s.drop_last().subrange(at, at + part.len()));
    assert(occurs_at(s, part, at));
}

/// A line that does not have the name of an issue in it does not report the issue.
proof fn lemma_unnamed_issue(low: Seq<char>, issue: Seq<char>)
    requires
        !has_part(low, issue),
    ensures
        !reports(low, issue),
{
    reveal_strlit("");
    reveal_strlit("s");
    let none = Seq::<char>::empty();
    if announces(low, issue) {
        let a = ""@ + issue + ":"@;
        let b = "["@ + issue + "]"@;
        let c = " "@ + issue + ":"@;
        parts_are_found_anywhere(""@, issue, ":"@);
        parts_are_found_anywhere("["@, issue, "]"@);
        parts_are_found_anywhere(" "@, issue, ":"@);
        let whole = if starts_with(low, a) {
            a
        } else if starts_with(low, b) || has_part(low, b) {
            b
        } else {
            c
        };
        assert(has_part(low, whole)) by {
            if starts_with(low, whole) {
                assert(occurs_at(low, whole, 0));
            }
        }
        parts_of_parts_are_parts(low, whole, issue);
    }
    if names(low, issue) {
        if runs(low).contains(issue) {
            let k = choose|k: int| 0 <= k < runs(low).len() && runs(low)[k] == issue;
            lemma_runs_are_parts(low, k);
        } else {
            let plural = issue + "s"@;
            let k = choose|k: int| 0 <= k < runs(low).len() && runs(low)[k] == plural;
            lemma_runs_are_parts(low, k);
            parts_are_found_anywhere(none, issue, "s"@);
            assert(none + issue + "s"@ =~= plural);
            parts_of_parts_are_parts(low, plural, issue);
        }
    }
}

/// A line that has none of the words in it by which a failure is told is no error.
pub proof fn lines_without_a_hint_are_no_errors(line: Seq<char>)
    requires
        ({
            let low = unicode_lower(trimmed(line));
            &&& !has_part(low, "error"@)
            &&& !has_part(low, "fatal"@)
            &&& !has_part(low, "failed"@)
            &&& !has_part(low, "exception"@)
            &&& !has_part(low, "e_pix_"@)
            &&& !has_part(low, "cannot open"@)
            &&& !has_part(low, "could not open"@)
        }),
    ensures
        !is_error_line(line),
{
    let low = unicode_lower(trimmed(line));
    lemma_unnamed_issue(low, "error"@);
    lemma_start_is_a_part(low, "error"@);
    lemma_start_is_a_part(low, "fatal"@);
    lemma_start_is_a_part(low, "failed"@);
    lemma_failed_behind_a_space(low);
}

proof fn lemma_start_is_a_part(s: Seq<char>, part: Seq<char>)
    ensures
        starts_with(s, part) ==> has_part(s, part),
{
    if starts_with(s, part) {
        assert(occurs_at(s, part, 0));
    }
}

proof fn lemma_failed_behind_a_space(low: Seq<char>)
    ensures
        has_part(low, " failed"@) ==> has_part(low, "failed"@),
{
    assert(" failed"@ == " "@ + "failed"@) by {
        reveal_strlit(" failed");
        reveal_strlit("failed");
        reveal_strlit(" ");
        assert(" failed"@ =~= " "@ + "failed"@);
    }
    lemma_part_behind(low, " "@, "failed"@);
}

proof fn lemma_part_behind(s: Seq<char>, a: Seq<char>, b: Seq<char>)
    ensures
        has_part(s, a + b) ==> has_part(s, b),
{
    if has_part(s, a + b) {
        let at = choose|at: int| occurs_at(s, a + b, at);
        let n = a.len() as int;
        assert((a + b).subrange(n, n + b.len()) =~= b);
        assert(s.subrange(at, at + (a + b).len()).subrange(n, n + b.len()) =~= s.subrange(
            at + n,
            at + n + b.len(),
        ));
        assert(occurs_at(s, b, at + n));
    }
}

/// A line that does not have the word in it is no warning.
pub proof fn lines_without_the_word_are_no_warnings(line: Seq<char>)
    requires
        !has_part(unicode_lower(trimmed(line)), "warning"@),
    ensures
        !reports_issue(line, "warning"@),
{
    lemma_unnamed_issue(unicode_lower(trimmed(line)), "warning"@);
}

/// A line that names an issue, or several, and has a number above zero among the three words
/// before it reports the issue, unless it denies it.
pub proof fn counted_issues_are_reported(line: Seq<char>, issue: Seq<char>, at: int, near: int, n: nat)
    requires
        ({
            let words = non_empty(runs(line));
            &&& 0 <= near < at < words.len()
            &&& at - near <= 3
            &&& words[at] == issue || words[at] == issue + "s"@
            &&& unsigned(words[near], 10, u64::MAX as nat) == Some(n)
            &&& n > 0
        }),
        issue.len() > 0,
    ensures
        reports(line, issue) || negates(line, issue),
{
    let words = non_empty(runs(line));
    let from = if at < 3 {
        0
    } else {
        at - 3
    };
    assert(is_count(words[near]));
    assert(has_count(words, from, at));
    assert(is_counted(words, issue, at));
    lemma_non_empty_contains(runs(line), words[at]);
}

/// So does a line with such a number among the two words behind it, where it has two.
pub proof fn issues_with_a_count_behind_are_reported(
    line: Seq<char>,
    issue: Seq<char>,
    at: int,
    near: int,
    n: nat,
)
    requires
        ({
            let words = non_empty(runs(line));
            &&& 0 <= at < near <= at + 2 < words.len()
            &&& words[at] == issue || words[at] == issue + "s"@
            &&& unsigned(words[near], 10, u64::MAX as nat) == Some(n)
            &&& n > 0
        }),
        issue.len() > 0,
    ensures
        reports(line, issue) || negates(line, issue),
{
    let words = non_empty(runs(line));
    assert(is_count(words[near]));
    assert(has_count(words, at + 1, at + 3));
    assert(is_counted(words, issue, at));
    lemma_non_empty_contains(runs(line), words[at]);
}

proof fn lemma_non_empty_contains(items: Seq<Seq<char>>, item: Seq<char>)
    requires
        non_empty(items).contains(item),
    ensures
        items.contains(item),
    decreases items.len(),
{
    if items.len() > 0 {
        let head = items.drop_last();
        if non_empty(head).contains(item) {
            lemma_non_empty_contains(head, item);
            let k = choose|k: int| 0 <= k < head.len() && head[k] == item;
            assert(items[k] == item);
        } else {
            let all = non_empty(items);
            let k = choose|k: int| 0 <= k < all.len() && all[k] == item;
            assert(items.last() == item) by {
                if k < non_empty(head).len() {
                    assert(non_empty(head)[k] == item);
                }
            }
            assert(items[items.len() - 1] == item);
        }
    }
}

/// A line that says, in one of the ways that count, that there were none of an issue.
pub open spec fn denies(
    line: Seq<char>,
    issue: Seq<char>,
    before: Seq<char>,
    after: Seq<char>,
) -> bool {
    ||| line == before + "no errors or warnings"@ + after
    ||| line == before + "no warnings or errors"@ + after
    ||| line == before + ("no "@ + issue) + after
    ||| line == before + ("0 "@ + issue) + after
    ||| line == before + ("zero "@ + issue) + after
    ||| line == before + ("without "@ + issue) + after
    ||| line == before + (issue + " count: 0"@) + after
    ||| line == before + (issue + " count = 0"@) + after
    ||| line == before + (issue + "_count=0"@) + after
    ||| line == before + (issue + "_count: 0"@) + after
    ||| line == before + (issue + "s: 0"@) + after
    ||| line == before + (issue + "s=0"@) + after
    ||| line == before + (issue + "s found: 0"@) + after
}

/// A line that says that there were none of an issue does not report it, unless it also announces
/// one.
pub proof fn denied_issues_are_not_reported(
    line: Seq<char>,
    issue: Seq<char>,
    before: Seq<char>,
    after: Seq<char>,
)
    requires
        denies(line, issue, before, after),
        !has_part(line, issue + ":"@),
        !has_part(line, "["@ + issue + "]"@),
    ensures
        !reports(line, issue),
{
    lemma_denial(line, issue, before, after);
    lemma_no_announcement(line, issue);
}

proof fn lemma_denial(line: Seq<char>, issue: Seq<char>, before: Seq<char>, after: Seq<char>)
    requires
        denies(line, issue, before, after),
    ensures
        negates(line, issue),
{
    lemma_empty();
    parts_are_found_anywhere(before, "no errors or warnings"@, after);
    parts_are_found_anywhere(before, "no warnings or errors"@, after);
    lemma_saying(line, before, "no "@, issue, ""@, after);
    lemma_saying(line, before, "0 "@, issue, ""@, after);
    lemma_saying(line, before, "zero "@, issue, ""@, after);
    lemma_saying(line, before, "without "@, issue, ""@, after);
    lemma_saying(line, before, ""@, issue, " count: 0"@, after);
    lemma_saying(line, before, ""@, issue, " count = 0"@, after);
    lemma_saying(line, before, ""@, issue, "_count=0"@, after);
    lemma_saying(line, before, ""@, issue, "_count: 0"@, after);
    lemma_saying(line, before, ""@, issue, "s: 0"@, after);
    lemma_saying(line, before, ""@, issue, "s=0"@, after);
    lemma_saying(line, before, ""@, issue, "s found: 0"@, after);
}

proof fn lemma_empty()
    ensures
        ""@.len() == 0,
{
    reveal_strlit("");
}

proof fn lemma_no_announcement(line: Seq<char>, issue: Seq<char>)
    requires
        !has_part(line, issue + ":"@),
        !has_part(line, "["@ + issue + "]"@),
    ensures
        !announces(line, issue),
{
    let colon = issue + ":"@;
    assert(""@ + issue + ":"@ == colon) by {
        lemma_empty();
        assert(""@ + issue + ":"@ =~= colon);
    }
    assert(" "@ + issue + ":"@ == " "@ + colon) by {
        assert(" "@ + issue + ":"@ =~= " "@ + colon);
    }
    lemma_start_is_a_part(line, colon);
    lemma_start_is_a_part(line, "["@ + issue + "]"@);
    lemma_part_behind(line, " "@, colon);
}

proof fn lemma_saying(
    line: Seq<char>,
    before: Seq<char>,
    left: Seq<char>,
    issue: Seq<char>,
    right: Seq<char>,
    after: Seq<char>,
)
    ensures
        line == before + (left + issue + right) + after ==> says(line, left, issue, right),
        left.len() == 0 && line == before + (issue + right) + after ==> says(
            line,
            left,
            issue,
            right,
        ),
        right.len() == 0 && line == before + (left + issue) + after ==> says(
            line,
            left,
            issue,
            right,
        ),
{
    parts_are_found_anywhere(before, left + issue + right, after);
    if left.len() == 0 {
        assert(left + issue + right =~= issue + right);
    }
    if right.len() == 0 {
        assert(left + issue + right =~= left + issue);
    }
}

// ---------------------------------------------------------------------------
// What is made of errors
// ---------------------------------------------------------------------------

proof fn lemma_trimmed_twice(s: Seq<char>)
    ensures
        trimmed(trimmed(s)) == trimmed(s),
{
    let t = trimmed(s);
    crate::text_laws::trimmed_texts_begin_and_end_with_something(s);
    let none = Seq::<char>::empty();
    trimming_takes_white_space_off(none, t, none);
    assert(none + t + none =~= t);
}

/// The picked lines are the trimmed lines that are not empty and of which the test holds.
proof fn lemma_picked_contains(all: Seq<Seq<char>>, pick: spec_fn(Seq<char>) -> bool, t: Seq<char>)
    ensures
        picked(all, pick).contains(t) <==> t.len() > 0 && pick(t) && exists|i: int|
            0 <= i < all.len() && trimmed(#[trigger] all[i]) == t,
    decreases all.len(),
{
    let found = picked(all, pick);
    if all.len() > 0 {
        let head = all.drop_last();
        let before = picked(head, pick);
        lemma_picked_contains(head, pick, t);
        if found.contains(t) {
            let k = choose|k: int| 0 <= k < found.len() && found[k] == t;
            if k < before.len() {
                assert(before[k] == t);
                let i = choose|i: int| 0 <= i < head.len() && trimmed(#[trigger] head[i]) == t;
                assert(trimmed(all[i]) == t);
            } else {
                assert(trimmed(all[all.len() - 1]) == t);
            }
        }
        if t.len() > 0 && pick(t) && exists|i: int|
            0 <= i < all.len() && trimmed(#[trigger] all[i]) == t {
            let i = choose|i: int| 0 <= i < all.len() && trimmed(#[trigger] all[i]) == t;
            if i < head.len() {
                assert(trimmed(head[i]) == t);
                let k = choose|k: int| 0 <= k < before.len() && before[k] == t;
                assert(found[k] == t);
            } else {
                assert(found[before.len() as int] == t);
            }
        }
    }
}

/// The reported errors are the trimmed lines of both streams that are errors: every one of them,
/// once, and nothing else. So are the warnings.
pub proof fn reported_lines_are_the_lines_that_tell(
    stdout: Seq<char>,
    stderr: Seq<char>,
    line: Seq<char>,
)
    ensures
        error_lines(stdout, stderr).contains(line) <==> line.len() > 0 && is_error_line(line)
            && exists|i: int|
            0 <= i < lines(stdout).len() + lines(stderr).len() && trimmed(
                #[trigger] (lines(stdout) + lines(stderr))[i],
            ) == line,
        warning_lines(stdout, stderr).contains(line) <==> line.len() > 0 && reports_issue(
            line,
            "warning"@,
        ) && exists|i: int|
            0 <= i < lines(stdout).len() + lines(stderr).len() && trimmed(
                #[trigger] (lines(stdout) + lines(stderr))[i],
            ) == line,
        error_lines(stdout, stderr).no_duplicates(),
        warning_lines(stdout, stderr).no_duplicates(),
        ascending(error_lines(stdout, stderr)),
        ascending(warning_lines(stdout, stderr)),
{
    let all = all_lines(stdout, stderr);
    let error = |line: Seq<char>| is_error_line(line);
    let warning = |line: Seq<char>| reports_issue(line, "warning"@);
    assert(all == lines(stdout) + lines(stderr));
    lemma_picked_contains(all, error, line);
    lemma_picked_contains(all, warning, line);
    distinct_sorted_has_the_same_texts(picked(all, error));
    distinct_sorted_has_the_same_texts(picked(all, warning));
    assert(distinct_sorted(picked(all, error)).contains(line) <==> picked(all, error).contains(line));
    assert(distinct_sorted(picked(all, warning)).contains(line) <==> picked(all, warning).contains(
        line,
    ));
    lemma_ascending_is_distinct(error_lines(stdout, stderr));
    lemma_ascending_is_distinct(warning_lines(stdout, stderr));
}

proof fn lemma_ascending_is_distinct(s: Seq<Seq<char>>)
    requires
        ascending(s),
    ensures
        s.no_duplicates(),
{
    assert forall|i: int, j: int| 0 <= i < s.len() && 0 <= j < s.len() && i != j implies s[i]
        != s[j] by {
        crate::order::text_less_is_total(s[i], s[j]);
        if i < j {
            assert(crate::order::text_less(s[i], s[j]));
        } else {
            assert(crate::order::text_less(s[j], s[i]));
        }
    }
}

proof fn lemma_first_error(all: Seq<Seq<char>>, i: int)
    requires
        0 <= i < all.len(),
        is_error_line(all[i]),
    ensures
        0 <= first_error(all) <= i,
    decreases all.len(),
{
    if !is_error_line(all[0]) {
        let rest = all.subrange(1, all.len() as int);
        assert(rest[i - 1] == all[i]);
        lemma_first_error(rest, i - 1);
    }
}

/// A command that prints a line that tells of an error is never a success: the line is among the
/// errors of a playback, and neither an artifact nor a list of counters of it is accepted.
pub proof fn told_errors_are_never_a_success(
    output: CommandOutput,
    operation: Seq<char>,
    i: int,
    before: Seq<char>,
    after: Seq<char>,
)
    requires
        ({
            let all = lines(output.stdout@) + lines(output.stderr@);
            &&& 0 <= i < all.len()
            &&& trimmed(all[i]).len() > 0
            &&& tells_of_an_error(unicode_lower(trimmed(all[i])), before, after)
        }),
    ensures
        error_lines(output.stdout@, output.stderr@).contains(
            trimmed((lines(output.stdout@) + lines(output.stderr@))[i]),
        ),
        error_lines(output.stdout@, output.stderr@).len() > 0,
        artifact_problem(output, operation) is Some,
        counter_listing_problem(output) is Some,
{
    let all = all_lines(output.stdout@, output.stderr@);
    let line = trimmed(all[i]);
    lemma_trimmed_twice(all[i]);
    lines_that_tell_of_an_error_are_errors(all[i], before, after);
    lines_that_tell_of_an_error_are_errors(line, before, after);
    reported_lines_are_the_lines_that_tell(output.stdout@, output.stderr@, line);
    assert(trimmed((lines(output.stdout@) + lines(output.stderr@))[i]) == line);
    lemma_first_error(all, i);
}

/// A command that ends with another status than success or `-1` is never a success either,
/// whatever it printed.
pub proof fn other_statuses_are_never_a_success(output: CommandOutput, operation: Seq<char>)
    requires
        !output.success,
        output.exit_code != Some(-1i32),
    ensures
        artifact_problem(output, operation) is Some,
        playback_problem(output) is Some,
        counter_listing_problem(output) is Some,
{
}

/// The artifact of a command is accepted where the command succeeded, or ended with `-1`, and its
/// whole output was read, asks for nothing and has no error in it.
pub proof fn quiet_successes_are_accepted(output: CommandOutput, operation: Seq<char>)
    requires
        output.success || output.exit_code == Some(-1i32),
        !is_incomplete(output.stdout@, output.stderr@),
        !has_part(unicode_lower(output.stdout@ + "\n"@ + output.stderr@), "developer mode"@),
        !has_part(
            unicode_lower(output.stdout@ + "\n"@ + output.stderr@),
            "requires_developer_mode"@,
        ),
        forall|i: int|
            0 <= i < lines(output.stdout@).len() + lines(output.stderr@).len() ==> !is_error_line(
                #[trigger] (lines(output.stdout@) + lines(output.stderr@))[i],
            ),
    ensures
        artifact_problem(output, operation) is None,
        playback_problem(output) is None,
        error_lines(output.stdout@, output.stderr@).len() == 0,
{
    let all = all_lines(output.stdout@, output.stderr@);
    assert(all == lines(output.stdout@) + lines(output.stderr@));
    lemma_no_error(all);
    let found = error_lines(output.stdout@, output.stderr@);
    if found.len() > 0 {
        let line = found[0];
        reported_lines_are_the_lines_that_tell(output.stdout@, output.stderr@, line);
        assert(found.contains(line));
        let i = choose|i: int|
            0 <= i < lines(output.stdout@).len() + lines(output.stderr@).len() && trimmed(
                #[trigger] (lines(output.stdout@) + lines(output.stderr@))[i],
            ) == line;
        lemma_trimmed_twice(all[i]);
        assert(is_error_line(all[i])) by {
            assert(trimmed(line) == trimmed(all[i]));
        }
    }
}

proof fn lemma_no_error(all: Seq<Seq<char>>)
    requires
        forall|i: int| 0 <= i < all.len() ==> !is_error_line(#[trigger] all[i]),
    ensures
        first_error(all) == all.len(),
    decreases all.len(),
{
    if all.len() > 0 {
        let rest = all.subrange(1, all.len() as int);
        assert forall|i: int| 0 <= i < rest.len() implies !is_error_line(#[trigger] rest[i]) by {
            assert(rest[i] == all[i + 1]);
        }
        lemma_no_error(rest);
    }
}

/// A command whose output asks for Developer Mode, in any case and in either stream, is answered
/// with guidance, whatever its status and whatever else it printed, unless its output was cut.
pub proof fn developer_mode_is_asked_for(
    output: CommandOutput,
    operation: Seq<char>,
    before: Seq<char>,
    after: Seq<char>,
)
    requires
        ({
            let low = unicode_lower(output.stdout@ + "\n"@ + output.stderr@);
            ||| low == before + "developer mode"@ + after
            ||| low == before + "requires_developer_mode"@ + after
        }),
        !is_incomplete(output.stdout@, output.stderr@),
    ensures
        artifact_problem(output, operation) == Some(developer_mode_guidance()),
        playback_problem(output) == Some(developer_mode_guidance()),
        counter_listing_problem(output) == Some(developer_mode_guidance()),
{
    parts_are_found_anywhere(before, "developer mode"@, after);
    parts_are_found_anywhere(before, "requires_developer_mode"@, after);
}

/// What is shown of both streams holds each of them that has anything in it, and nothing where
/// neither has.
pub proof fn shown_output_holds_both_streams(stdout: Seq<char>, stderr: Seq<char>)
    ensures
        !is_blank(stdout) ==> has_part(combined_output(stdout, stderr), stdout),
        !is_blank(stderr) ==> has_part(combined_output(stdout, stderr), stderr),
        is_blank(stdout) && is_blank(stderr) ==> combined_output(stdout, stderr).len() == 0,
        is_blank(stderr) && !is_blank(stdout) ==> combined_output(stdout, stderr) == stdout,
{
    let none = Seq::<char>::empty();
    parts_are_found_anywhere(none, stdout, none);
    assert(none + stdout + none =~= stdout);
    parts_are_found_anywhere("stderr:\n"@, stderr, none);
    assert("stderr:\n"@ + stderr + none =~= "stderr:\n"@ + stderr);
    parts_are_found_anywhere("stdout:\n"@, stdout, "\nstderr:\n"@ + stderr);
    assert("stdout:\n"@ + stdout + ("\nstderr:\n"@ + stderr) =~= "stdout:\n"@ + stdout
        + "\nstderr:\n"@ + stderr);
    parts_are_found_anywhere("stdout:\n"@ + stdout + "\nstderr:\n"@, stderr, none);
    assert("stdout:\n"@ + stdout + "\nstderr:\n"@ + stderr + none =~= "stdout:\n"@ + stdout
        + "\nstderr:\n"@ + stderr);
}

// ---------------------------------------------------------------------------
// Counters
// ---------------------------------------------------------------------------

/// The names of counters are the trimmed lines that are names, in their order.
pub proof fn counter_names_are_the_lines_that_name(all: Seq<Seq<char>>)
    ensures
        counter_names(all) == all.filter(|line: Seq<char>| is_counter_line(line)).map_values(
            |line: Seq<char>| trimmed(line),
        ),
    decreases all.len(),
{
    reveal(Seq::filter);
    let pick = |line: Seq<char>| is_counter_line(line);
    let trim = |line: Seq<char>| trimmed(line);
    if all.len() > 0 {
        counter_names_are_the_lines_that_name(all.drop_last());
        if is_counter_line(all.last()) {
            assert(all.filter(pick).map_values(trim) =~= all.drop_last().filter(pick).map_values(
                trim,
            ).push(trimmed(all.last())));
        }
    } else {
        assert(all.filter(pick).map_values(trim) =~= counter_names(all));
    }
}

/// A line that holds something names a counter, unless it is a message: one that begins with
/// `launching`, `connecting`, `usage:`, `pixtool ` or the server's own mark, a heading, or a line
/// that tells of a failure.
pub proof fn other_lines_name_counters(line: Seq<char>, after: Seq<char>)
    ensures
        ({
            let low = lower_ascii(trimmed(line));
            &&& is_blank(line) ==> !is_counter_line(line)
            &&& low == "launching"@ + after ==> !is_counter_line(line)
            &&& low == "connecting"@ + after ==> !is_counter_line(line)
            &&& low == "usage:"@ + after ==> !is_counter_line(line)
            &&& low == "pixtool "@ + after ==> !is_counter_line(line)
            &&& low == "available counters:"@ ==> !is_counter_line(line)
            &&& low == "counters:"@ ==> !is_counter_line(line)
            &&& trimmed(line) == "[pix-mcp:"@ + after ==> !is_counter_line(line)
            &&& indicates_failure(line) ==> !is_counter_line(line)
            &&& !is_counter_line(line) ==> is_blank(line) || low == "available counters:"@ || low
                == "counters:"@ || indicates_failure(line) || starts_with(low, "launching"@)
                || starts_with(low, "connecting"@) || starts_with(low, "usage:"@) || starts_with(
                low,
                "pixtool "@,
            ) || starts_with(trimmed(line), "[pix-mcp:"@)
        }),
{
    let none = Seq::<char>::empty();
    crate::text::lemma_blank_trims_to_nothing(line);
    lemma_trimmed_twice(line);
    parts_are_found_anywhere(none, "launching"@, after);
    parts_are_found_anywhere(none, "connecting"@, after);
    parts_are_found_anywhere(none, "usage:"@, after);
    parts_are_found_anywhere(none, "pixtool "@, after);
    parts_are_found_anywhere(none, "[pix-mcp:"@, after);
}

/// Whether `name` has `part` in it, up to case: between any beginning and any end.
pub open spec fn contains_in_any_case(name: Seq<char>, part: Seq<char>) -> bool {
    exists|before: Seq<char>, after: Seq<char>|
        unicode_lower(name) == #[trigger] (before + unicode_lower(part) + after)
}

/// The filter keeps the names that have it in them, up to case and anywhere, in their order;
/// without a filter every name is kept.
pub proof fn the_filter_keeps_what_contains_it(names: Seq<Seq<char>>, filter: Option<Seq<char>>)
    ensures
        matching(names, filter) == names.filter(
            |name: Seq<char>|
                match filter {
                    Some(part) => contains_in_any_case(name, part),
                    None => true,
                },
        ),
    decreases names.len(),
{
    reveal(Seq::filter);
    if names.len() > 0 {
        the_filter_keeps_what_contains_it(names.drop_last(), filter);
        if let Some(part) = filter {
            let low = unicode_lower(names.last());
            found_parts_are_there(low, unicode_lower(part));
            if contains_in_any_case(names.last(), part) {
                let (before, after) = choose|before: Seq<char>, after: Seq<char>|
                    low == #[trigger] (before + unicode_lower(part) + after);
                parts_are_found_anywhere(before, unicode_lower(part), after);
            }
        }
    }
}

/// A list of counters that is not said to be truncated has every counter that was printed and has
/// the filter in its name, as it was printed. No list has more counters than was asked for, nor
/// more than 2000, and none was asked for more than 200 where no number was given.
pub proof fn listed_counters_are_those_asked_for(
    report: CountersReport,
    capture_path: Seq<char>,
    stdout: Seq<char>,
    filter: Option<Seq<char>>,
    limit: Option<usize>,
)
    requires
        report.lists(capture_path, stdout, filter, limit),
    ensures
        !report.truncated ==> texts(report.counters@) == counter_names(lines(stdout)).filter(
            |name: Seq<char>|
                match filter {
                    Some(part) => contains_in_any_case(name, part),
                    None => true,
                },
        ),
        report.counters.len() <= 2000,
        match limit {
            Some(n) => report.counters.len() <= n,
            None => report.counters.len() <= 200,
        },
        report.total_count == counter_names(lines(stdout)).len(),
        report.returned == report.counters.len(),
{
    let names = counter_names(lines(stdout));
    let wanted = wanted_counters(stdout, filter, limit);
    let found = matching(names, filter);
    the_filter_keeps_what_contains_it(names, filter);
    fitting_items_keep_within_the_limit(
        crate::budget::element_sizes(all_cut(wanted, 16_384)),
        2,
        786_432,
    );
    let n = kept_count(wanted, 16_384, 786_432) as int;
    assert(texts(report.counters@).len() == report.counters.len());
    assert(kept(wanted, 16_384, 786_432).len() == n);
    if !report.truncated {
        assert(wanted =~= found);
        assert forall|i: int| 0 <= i < n implies #[trigger] kept(wanted, 16_384, 786_432)[i]
            == wanted[i] by {
            assert(!crate::utf8::is_cut(wanted[i], 16_384));
        }
        assert(texts(report.counters@) =~= found);
    }
}

/// Counters that are listed in a longer output are those of its lines, one after the other: what
/// stands on one line does not change what another gives.
pub proof fn counters_are_listed_line_by_line(a: Seq<Seq<char>>, b: Seq<Seq<char>>)
    ensures
        counter_names(a + b) == counter_names(a) + counter_names(b),
    decreases b.len(),
{
    if b.len() == 0 {
        assert(a + b =~= a);
        assert(counter_names(a) + counter_names(b) =~= counter_names(a));
    } else {
        counters_are_listed_line_by_line(a, b.drop_last());
        assert((a + b).drop_last() =~= a + b.drop_last());
        assert((a + b).last() == b.last());
        assert(counter_names(a + b) =~= counter_names(a) + counter_names(b));
    }
}

/// The first error that was printed is named in what is said of the command, and nothing that was
/// printed before it counts.
pub proof fn the_first_error_is_named(output: CommandOutput, operation: Seq<char>, i: int)
    requires
        ({
            let all = lines(output.stdout@) + lines(output.stderr@);
            &&& 0 <= i < all.len()
            &&& is_error_line(all[i])
            &&& forall|k: int| 0 <= k < i ==> !is_error_line(#[trigger] all[k])
        }),
        !is_incomplete(output.stdout@, output.stderr@),
        !asks_for_developer_mode(unicode_lower(output.stdout@ + "\n"@ + output.stderr@)),
    ensures
        artifact_problem(output, operation) == Some(
            "pixtool "@ + operation + " reported a failure ("@ + (lines(output.stdout@) + lines(
                output.stderr@,
            ))[i] + ").\n"@ + combined_output(output.public_stdout@, output.public_stderr@),
        ),
{
    let all = all_lines(output.stdout@, output.stderr@);
    assert(all == lines(output.stdout@) + lines(output.stderr@));
    lemma_first_error(all, i);
    lemma_first_error_is_one(all);
    let at = first_error(all);
    if at < i {
        assert(!is_error_line(all[at]));
    }
}

proof fn lemma_first_error_is_one(all: Seq<Seq<char>>)
    ensures
        0 <= first_error(all) <= all.len(),
        first_error(all) < all.len() ==> is_error_line(all[first_error(all)]),
    decreases all.len(),
{
    if all.len() > 0 && !is_error_line(all[0]) {
        let rest = all.subrange(1, all.len() as int);
        lemma_first_error_is_one(rest);
        if first_error(rest) < rest.len() {
            assert(rest[first_error(rest)] == all[first_error(all)]);
        }
    }
}

/// A line is a note of the server exactly where it begins with the server's mark, with any white
/// space before it; a stream with such a line in it is never taken for complete.
pub proof fn notes_mark_streams_as_incomplete(
    stdout: Seq<char>,
    stderr: Seq<char>,
    i: int,
    after: Seq<char>,
)
    requires
        0 <= i < lines(stdout).len() + lines(stderr).len(),
        trimmed((lines(stdout) + lines(stderr))[i]) == "[pix-mcp:"@ + after,
    ensures
        is_incomplete(stdout, stderr),
{
    parts_are_found_anywhere(Seq::empty(), "[pix-mcp:"@, after);
    let all = all_lines(stdout, stderr);
    assert(crate::diagnostics::is_note(all[i]));
}

/// Streams without such a line are complete.
pub proof fn streams_without_notes_are_complete(stdout: Seq<char>, stderr: Seq<char>)
    requires
        forall|i: int|
            0 <= i < lines(stdout).len() + lines(stderr).len() ==> !starts_with(
                trimmed(#[trigger] (lines(stdout) + lines(stderr))[i]),
                "[pix-mcp:"@,
            ),
    ensures
        !is_incomplete(stdout, stderr),
{
    let all = all_lines(stdout, stderr);
    assert(all == lines(stdout) + lines(stderr));
    if is_incomplete(stdout, stderr) {
        let i = choose|i: int|
            0 <= i < all.len() && crate::diagnostics::is_note(#[trigger] all[i]);
        assert(!starts_with(trimmed((lines(stdout) + lines(stderr))[i]), "[pix-mcp:"@));
    }
}

/// Whether the word at `near` stands near the issue at `at`: among the three words before it, or
/// among the two behind it where two follow.
pub open spec fn stands_near(words: Seq<Seq<char>>, issue: Seq<char>, at: int, near: int) -> bool {
    &&& 0 <= at < words.len()
    &&& words[at] == issue || words[at] == issue + "s"@
    &&& 0 <= near < words.len()
    &&& at - 3 <= near < at || at < near <= at + 2 < words.len()
}

/// A line that names an issue without a number above zero near it does not report the issue, unless
/// it announces one: neither zero nor a number further off is a count, and the name inside a longer
/// word is not the name.
pub proof fn uncounted_issues_are_not_reported(line: Seq<char>, issue: Seq<char>)
    requires
        !has_part(line, issue + ":"@),
        !has_part(line, "["@ + issue + "]"@),
        forall|at: int, near: int| #[trigger]
            stands_near(non_empty(runs(line)), issue, at, near) ==> match unsigned(
                non_empty(runs(line))[near],
                10,
                u64::MAX as nat,
            ) {
                Some(n) => n == 0,
                None => true,
            },
    ensures
        !reports(line, issue),
{
    lemma_no_announcement(line, issue);
    let words = non_empty(runs(line));
    if counts(line, issue) {
        let at = choose|at: int| 0 <= at < words.len() && #[trigger] is_counted(words, issue, at);
        let from = if at < 3 {
            0
        } else {
            at - 3
        };
        if has_count(words, from, at) {
            let near = choose|near: int| from <= near < at && is_count(#[trigger] words[near]);
            assert(stands_near(words, issue, at, near));
        } else {
            let near = choose|near: int|
                at + 1 <= near < at + 3 && is_count(#[trigger] words[near]);
            assert(stands_near(words, issue, at, near));
        }
    }
}

} // verus!
