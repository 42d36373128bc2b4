//! What `pixtool` printed: failures, issues and incomplete output.

use crate::budget::{keep_within, kept, some_kept_is_cut};
use crate::failure::Failure;
use crate::numbers::{parse_unsigned, signed_decimal, signed_decimal_text, unsigned};
use crate::order::{distinct_sorted, sort_distinct};
use crate::text::{
    any_same, blank, chars_have_part, chars_of, concat3, drop_empty, has_part, is_blank,
    first_at, lemma_first_at, lemma_first_at_is, lemma_texts_push, lines, non_empty, runs, same_text, split_lines, split_runs, starts_with,
    starts_with_text, texts, trim, trimmed, unicode_lower, without_return,
};
use vstd::prelude::*;
use vstd::string::*;

verus! {

/// How many bytes of each output stream are kept.
pub const MAX_PROCESS_OUTPUT_BYTES: usize = 1_048_576;

/// How much of one diagnostic line, or of one counter name, is returned.
pub const MAX_COUNTER_NAME_BYTES: usize = 16_384;

/// How much JSON a list of diagnostic lines may take.
pub const MAX_INLINE_DIAGNOSTICS_JSON_BYTES: usize = 196_608;

/// What the server's own notes in a stream begin with.
pub open spec fn note_prefix() -> Seq<char> {
    "[pix-mcp:"@
}

/// The lines of both streams, one stream after the other.
pub open spec fn all_lines(stdout: Seq<char>, stderr: Seq<char>) -> Seq<Seq<char>> {
    lines(stdout) + lines(stderr)
}

fn split_all_lines(stdout: &str, stderr: &str) -> (r: Vec<String>)
    ensures
        texts(r@) == all_lines(stdout@, stderr@),
{
    let mut r = split_lines(stdout);
    let mut more = split_lines(stderr);
    let ghost a = r@;
    let ghost b = more@;
    r.append(&mut more);
    assert(texts(r@) =~= texts(a) + texts(b));
    r
}

// ---------------------------------------------------------------------------
// Developer mode
// ---------------------------------------------------------------------------

/// Whether `text`, in lower case, says that Developer Mode is needed.
pub open spec fn asks_for_developer_mode(text: Seq<char>) -> bool {
    has_part(text, "developer mode"@) || has_part(text, "requires_developer_mode"@)
}

pub open spec fn developer_mode_guidance() -> Seq<char> {
    "pixtool analysis requires Windows Developer Mode. Enable it (Settings → For developers → Developer Mode) and retry. Capturing does not need it; only open-capture analysis (event lists, screenshots, counters) does."@
}

/// Whether a text in lower case says that Developer Mode is needed.
pub fn names_developer_mode(text: &str) -> (r: bool)
    ensures
        r == asks_for_developer_mode(text@),
{
    let chars = chars_of(text);
    chars_have_part(&chars, &chars_of("developer mode")) || chars_have_part(
        &chars,
        &chars_of("requires_developer_mode"),
    )
}

/// Analysis and playback verbs of `pixtool` fail without Windows Developer Mode. Answers
/// such a failure with guidance.
pub fn check_developer_mode(stdout: &str, stderr: &str) -> (r: Result<(), Failure>)
    ensures
        r is Err == asks_for_developer_mode(unicode_lower(stdout@ + "\n"@ + stderr@)),
        r matches Err(e) ==> e.message@ == developer_mode_guidance(),
{
    let combined = concat3(stdout, "\n", stderr).to_lowercase();
    if names_developer_mode(&combined) {
        return Err(
            Failure::of(
                "pixtool analysis requires Windows Developer Mode. Enable it (Settings → For developers → Developer Mode) and retry. Capturing does not need it; only open-capture analysis (event lists, screenshots, counters) does.",
            ),
        );
    }
    Ok(())
}

// ---------------------------------------------------------------------------
// Incomplete output
// ---------------------------------------------------------------------------

/// Whether a line is a note of the server that the stream is not complete.
pub open spec fn is_note(line: Seq<char>) -> bool {
    starts_with(trimmed(line), note_prefix())
}

pub open spec fn is_incomplete(stdout: Seq<char>, stderr: Seq<char>) -> bool {
    exists|i: int|
        0 <= i < all_lines(stdout, stderr).len() && is_note(#[trigger] all_lines(stdout, stderr)[i])
}

pub open spec fn incomplete_text(operation: Seq<char>) -> Seq<char> {
    "pixtool "@ + operation
        + " output was truncated or could not be drained within the server's 1048576 byte per-stream limit; refusing to report an incomplete result"@
}

/// Refuses output that the server could not read to its end.
pub fn reject_incomplete_process_output(stdout: &str, stderr: &str, operation: &str) -> (r: Result<
    (),
    Failure,
>)
    ensures
        r is Err == is_incomplete(stdout@, stderr@),
        r matches Err(e) ==> e.message@ == incomplete_text(operation@),
{
    let all = split_all_lines(stdout, stderr);
    let mut i: usize = 0;
    while i < all.len()
        invariant
            i <= all.len(),
            texts(all@) == all_lines(stdout@, stderr@),
            forall|k: int| 0 <= k < i ==> !is_note(#[trigger] all_lines(stdout@, stderr@)[k]),
        decreases all.len() - i,
    {
        assert(texts(all@)[i as int] == all@[i as int]@);
        if starts_with_text(&trim(&all[i]), "[pix-mcp:") {
            assert(is_note(all_lines(stdout@, stderr@)[i as int]));
            return Err(
                Failure::new(
                    concat3(
                        "pixtool ",
                        operation,
                        " output was truncated or could not be drained within the server's 1048576 byte per-stream limit; refusing to report an incomplete result",
                    ),
                ),
            );
        }
        i += 1;
    }
    assert(all_lines(stdout@, stderr@).len() == all@.len());
    Ok(())
}

// ---------------------------------------------------------------------------
// Issues
// ---------------------------------------------------------------------------

/// Whether `before`, `issue` and `after` stand one after the other in `line`.
pub open spec fn says(line: Seq<char>, before: Seq<char>, issue: Seq<char>, after: Seq<char>) -> bool {
    has_part(line, before + issue + after)
}

fn line_says(line: &Vec<char>, before: &str, issue: &str, after: &str) -> (r: bool)
    ensures
        r == says(line@, before@, issue@, after@),
{
    chars_have_part(line, &chars_of(&concat3(before, issue, after)))
}

/// Whether `line` announces an issue, as in `error: ...` or `[error]`.
pub open spec fn announces(line: Seq<char>, issue: Seq<char>) -> bool {
    ||| starts_with(line, ""@ + issue + ":"@)
    ||| starts_with(line, "["@ + issue + "]"@)
    ||| says(line, " "@, issue, ":"@)
    ||| says(line, "["@, issue, "]"@)
}

/// Whether `line` has `issue`, or its plural, as a word.
pub open spec fn names(line: Seq<char>, issue: Seq<char>) -> bool {
    runs(line).contains(issue) || runs(line).contains(issue + "s"@)
}

/// Whether `line` says that there were none of the issue.
pub open spec fn negates(line: Seq<char>, issue: Seq<char>) -> bool {
    ||| has_part(line, "no errors or warnings"@)
    ||| has_part(line, "no warnings or errors"@)
    ||| says(line, "no "@, issue, ""@)
    ||| says(line, "0 "@, issue, ""@)
    ||| says(line, "zero "@, issue, ""@)
    ||| says(line, "without "@, issue, ""@)
    ||| says(line, ""@, issue, " count: 0"@)
    ||| says(line, ""@, issue, " count = 0"@)
    ||| says(line, ""@, issue, "_count=0"@)
    ||| says(line, ""@, issue, "_count: 0"@)
    ||| says(line, ""@, issue, "s: 0"@)
    ||| says(line, ""@, issue, "s=0"@)
    ||| says(line, ""@, issue, "s found: 0"@)
}

/// Whether `word` is a number above zero.
pub open spec fn is_count(word: Seq<char>) -> bool {
    match unsigned(word, 10, u64::MAX as nat) {
        Some(n) => n > 0,
        None => false,
    }
}

/// Whether one of the words from `from` up to `to` is a number above zero.
pub open spec fn has_count(words: Seq<Seq<char>>, from: int, to: int) -> bool {
    exists|k: int| from <= k < to && is_count(#[trigger] words[k])
}

/// Whether the word at `at` is the issue with a count near it: among the three words before
/// it, or among the two words after it where two follow.
pub open spec fn is_counted(words: Seq<Seq<char>>, issue: Seq<char>, at: int) -> bool {
    &&& words[at] == issue || words[at] == issue + "s"@
    &&& has_count(words, if at < 3 {
        0
    } else {
        at - 3
    }, at) || (at + 2 < words.len() && has_count(words, at + 1, at + 3))
}

pub open spec fn counts(line: Seq<char>, issue: Seq<char>) -> bool {
    let words = non_empty(runs(line));
    exists|at: int| 0 <= at < words.len() && #[trigger] is_counted(words, issue, at)
}

/// Whether a line, trimmed and in lower case, reports that the issue occurred: it announces
/// one, or it gives a count above zero and does not deny it.
pub open spec fn reports(line: Seq<char>, issue: Seq<char>) -> bool {
    announces(line, issue) || (names(line, issue) && !negates(line, issue) && counts(line, issue))
}

fn announced(chars: &Vec<char>, line: &str, issue: &str) -> (r: bool)
    requires
        chars@ == line@,
    ensures
        r == announces(line@, issue@),
{
    starts_with_text(line, &concat3("", issue, ":")) || starts_with_text(
        line,
        &concat3("[", issue, "]"),
    ) || line_says(chars, " ", issue, ":") || line_says(chars, "[", issue, "]")
}

fn negated(chars: &Vec<char>, issue: &str) -> (r: bool)
    ensures
        r == negates(chars@, issue@),
{
    chars_have_part(chars, &chars_of("no errors or warnings")) || chars_have_part(
        chars,
        &chars_of("no warnings or errors"),
    ) || line_says(chars, "no ", issue, "") || line_says(chars, "0 ", issue, "") || line_says(
        chars,
        "zero ",
        issue,
        "",
    ) || line_says(chars, "without ", issue, "") || line_says(chars, "", issue, " count: 0")
        || line_says(chars, "", issue, " count = 0") || line_says(chars, "", issue, "_count=0")
        || line_says(chars, "", issue, "_count: 0") || line_says(chars, "", issue, "s: 0")
        || line_says(chars, "", issue, "s=0") || line_says(chars, "", issue, "s found: 0")
}

fn any_count(words: &Vec<String>, from: usize, to: usize) -> (r: bool)
    requires
        from <= to <= words.len(),
    ensures
        r == has_count(texts(words@), from as int, to as int),
{
    let mut k: usize = from;
    while k < to
        invariant
            from <= k <= to <= words.len(),
            forall|m: int| from <= m < k ==> !is_count(#[trigger] texts(words@)[m]),
        decreases to - k,
    {
        assert(texts(words@)[k as int] == words@[k as int]@);
        match parse_unsigned(&words[k], 10, u64::MAX) {
            Some(n) => if n > 0 {
                assert(is_count(texts(words@)[k as int]));
                return true;
            },
            None => {},
        }
        assert(!is_count(texts(words@)[k as int]));
        k += 1;
    }
    false
}

fn counted(line: &str, issue: &str, plural: &str) -> (r: bool)
    requires
        plural@ == issue@ + "s"@,
    ensures
        r == counts(line@, issue@),
{
    let words = drop_empty(&split_runs(line));
    let ghost model = non_empty(runs(line@));
    let mut at: usize = 0;
    while at < words.len()
        invariant
            at <= words.len(),
            texts(words@) == model,
            model == non_empty(runs(line@)),
            model.len() == words.len(),
            plural@ == issue@ + "s"@,
            forall|k: int| 0 <= k < at ==> !#[trigger] is_counted(model, issue@, k),
        decreases words.len() - at,
    {
        assert(model[at as int] == words@[at as int]@);
        if same_text(&words[at], issue) || same_text(&words[at], plural) {
            let start: usize = if at < 3 {
                0
            } else {
                at - 3
            };
            if any_count(&words, start, at) {
                assert(is_counted(model, issue@, at as int));
                return true;
            }
            if words.len() - at > 2 {
                if any_count(&words, at + 1, at + 3) {
                    assert(is_counted(model, issue@, at as int));
                    return true;
                }
            }
        }
        assert(!is_counted(model, issue@, at as int));
        at += 1;
    }
    assert(texts(words@).len() == words@.len());
    false
}

/// Whether a line that is trimmed and in lower case reports the issue.
pub fn lower_line_reports_issue(line: &str, issue: &str) -> (r: bool)
    ensures
        r == reports(line@, issue@),
{
    let chars = chars_of(line);
    if announced(&chars, line, issue) {
        return true;
    }
    let plural = concat3(issue, "s", "");
    proof {
        reveal_strlit("");
        assert(issue@ + "s"@ + ""@ =~= issue@ + "s"@);
    }
    let words = split_runs(line);
    if !any_same(&words, issue) && !any_same(&words, &plural) {
        return false;
    }
    if negated(&chars, issue) {
        return false;
    }
    counted(line, issue, &plural)
}

/// Whether a line reports the issue.
pub open spec fn reports_issue(line: Seq<char>, issue: Seq<char>) -> bool {
    reports(unicode_lower(trimmed(line)), issue)
}

pub fn line_reports_issue(line: &str, issue: &str) -> (r: bool)
    ensures
        r == reports_issue(line@, issue@),
{
    let lower = trim(line).to_lowercase();
    lower_line_reports_issue(&lower, issue)
}

/// Whether a line that is trimmed and in lower case says that the command failed.
pub open spec fn tells_failure(line: Seq<char>) -> bool {
    ||| starts_with(line, "error"@) && reports_issue(line, "error"@)
    ||| starts_with(line, "fatal"@)
    ||| has_part(line, " failed"@)
    ||| starts_with(line, "failed"@)
    ||| has_part(line, "exception"@)
    ||| has_part(line, "e_pix_"@)
    ||| has_part(line, "cannot open"@)
    ||| has_part(line, "could not open"@)
}

pub fn lower_line_indicates_command_failure(line: &str) -> (r: bool)
    ensures
        r == tells_failure(line@),
{
    let chars = chars_of(line);
    (starts_with_text(line, "error") && line_reports_issue(line, "error")) || starts_with_text(
        line,
        "fatal",
    ) || chars_have_part(&chars, &chars_of(" failed")) || starts_with_text(line, "failed")
        || chars_have_part(&chars, &chars_of("exception")) || chars_have_part(
        &chars,
        &chars_of("e_pix_"),
    ) || chars_have_part(&chars, &chars_of("cannot open")) || chars_have_part(
        &chars,
        &chars_of("could not open"),
    )
}

pub open spec fn indicates_failure(line: Seq<char>) -> bool {
    tells_failure(unicode_lower(trimmed(line)))
}

pub fn line_indicates_command_failure(line: &str) -> (r: bool)
    ensures
        r == indicates_failure(line@),
{
    let lower = trim(line).to_lowercase();
    lower_line_indicates_command_failure(&lower)
}

/// Whether a line counts as an error.
pub open spec fn is_error_line(line: Seq<char>) -> bool {
    reports_issue(line, "error"@) || indicates_failure(line)
}

pub fn line_is_error(line: &str) -> (r: bool)
    ensures
        r == is_error_line(line@),
{
    line_reports_issue(line, "error") || line_indicates_command_failure(line)
}

/// Where the first error line stands; the number of lines if there is none.
pub open spec fn first_error(all: Seq<Seq<char>>) -> int
    decreases all.len(),
{
    if all.len() == 0 || is_error_line(all[0]) {
        0
    } else {
        1 + first_error(all.subrange(1, all.len() as int))
    }
}

proof fn lemma_first_error_is(all: Seq<Seq<char>>, at: int)
    requires
        0 <= at <= all.len(),
        forall|k: int| 0 <= k < at ==> !is_error_line(#[trigger] all[k]),
        at < all.len() ==> is_error_line(all[at]),
    ensures
        first_error(all) == at,
    decreases all.len(),
{
    if at > 0 {
        let rest = all.subrange(1, all.len() as int);
        assert(!is_error_line(all[0]));
        assert forall|k: int| 0 <= k < at - 1 implies !is_error_line(#[trigger] rest[k]) by {
            assert(rest[k] == all[k + 1]);
        }
        lemma_first_error_is(rest, at - 1);
    }
}

/// The first line of either stream that counts as an error.
pub fn first_error_line(stdout: &str, stderr: &str) -> (r: Option<String>)
    ensures
        ({
            let all = all_lines(stdout@, stderr@);
            match r {
                Some(line) => first_error(all) < all.len() && line@ == all[first_error(all)],
                None => first_error(all) == all.len(),
            }
        }),
{
    let all = split_all_lines(stdout, stderr);
    let ghost model = all_lines(stdout@, stderr@);
    let mut i: usize = 0;
    while i < all.len()
        invariant
            i <= all.len(),
            texts(all@) == model,
            model.len() == all.len(),
            model == all_lines(stdout@, stderr@),
            forall|k: int| 0 <= k < i ==> !is_error_line(#[trigger] model[k]),
        decreases all.len() - i,
    {
        assert(model[i as int] == all@[i as int]@);
        if line_is_error(&all[i]) {
            proof {
                lemma_first_error_is(model, i as int);
            }
            return Some(all[i].clone());
        }
        i += 1;
    }
    proof {
        lemma_first_error_is(model, model.len() as int);
    }
    None
}

/// The trimmed lines that are not empty and of which `pick` holds, in order.
pub open spec fn picked(all: Seq<Seq<char>>, pick: spec_fn(Seq<char>) -> bool) -> Seq<Seq<char>>
    decreases all.len(),
{
    if all.len() == 0 {
        seq![]
    } else {
        let before = picked(all.drop_last(), pick);
        let line = trimmed(all.last());
        if line.len() > 0 && pick(line) {
            before.push(line)
        } else {
            before
        }
    }
}

/// The distinct error lines of both streams, in ascending order.
pub open spec fn error_lines(stdout: Seq<char>, stderr: Seq<char>) -> Seq<Seq<char>> {
    distinct_sorted(picked(all_lines(stdout, stderr), |line: Seq<char>| is_error_line(line)))
}

/// The distinct warning lines of both streams, in ascending order.
pub open spec fn warning_lines(stdout: Seq<char>, stderr: Seq<char>) -> Seq<Seq<char>> {
    distinct_sorted(
        picked(all_lines(stdout, stderr), |line: Seq<char>| reports_issue(line, "warning"@)),
    )
}

/// The errors and the warnings that the command printed.
pub fn classify_analysis_output(stdout: &str, stderr: &str) -> (r: (Vec<String>, Vec<String>))
    ensures
        texts(r.0@) == error_lines(stdout@, stderr@),
        texts(r.1@) == warning_lines(stdout@, stderr@),
{
    broadcast use lemma_texts_push;

    let all = split_all_lines(stdout, stderr);
    let ghost model = all_lines(stdout@, stderr@);
    let ghost wrong = |line: Seq<char>| is_error_line(line);
    let ghost doubtful = |line: Seq<char>| reports_issue(line, "warning"@);
    let mut errors: Vec<String> = Vec::new();
    let mut warnings: Vec<String> = Vec::new();
    let mut i: usize = 0;
    proof {
        assert(texts(errors@) =~= picked(model.take(0), wrong));
        assert(texts(warnings@) =~= picked(model.take(0), doubtful));
    }
    while i < all.len()
        invariant
            i <= all.len(),
            texts(all@) == model,
            model.len() == all.len(),
            wrong == (|line: Seq<char>| is_error_line(line)),
            doubtful == (|line: Seq<char>| reports_issue(line, "warning"@)),
            texts(errors@) == picked(model.take(i as int), wrong),
            texts(warnings@) == picked(model.take(i as int), doubtful),
        decreases all.len() - i,
    {
        let line = trim(&all[i]);
        proof {
            let now = model.take(i + 1);
            assert(now.drop_last() =~= model.take(i as int));
            assert(now.last() == all@[i as int]@);
        }
        if !line.as_str().is_empty() {
            if line_is_error(&line) {
                errors.push(line.clone());
            }
            if line_reports_issue(&line, "warning") {
                warnings.push(line);
            }
        }
        i += 1;
    }
    assert(model.take(i as int) =~= model);
    (sort_distinct(errors), sort_distinct(warnings))
}

// ---------------------------------------------------------------------------
// Bounded lines
// ---------------------------------------------------------------------------

/// The number of lines, those that fit the inline budget, and whether anything was left out.
pub fn bounded_diagnostic_lines(lines: &Vec<String>) -> (r: (usize, Vec<String>, bool))
    ensures
        r.0 == lines.len(),
        texts(r.1@) == kept(
            texts(lines@),
            MAX_COUNTER_NAME_BYTES as nat,
            MAX_INLINE_DIAGNOSTICS_JSON_BYTES as nat,
        ),
        r.2 == (r.1.len() < lines.len() || some_kept_is_cut(
            texts(lines@),
            MAX_COUNTER_NAME_BYTES as nat,
            MAX_INLINE_DIAGNOSTICS_JSON_BYTES as nat,
        )),
{
    let (retained, any_cut) = keep_within(
        lines,
        MAX_COUNTER_NAME_BYTES,
        MAX_INLINE_DIAGNOSTICS_JSON_BYTES,
    );
    let truncated = any_cut || retained.len() < lines.len();
    (lines.len(), retained, truncated)
}

// ---------------------------------------------------------------------------
// Both streams as one text
// ---------------------------------------------------------------------------

pub open spec fn combined_output(stdout: Seq<char>, stderr: Seq<char>) -> Seq<char> {
    if is_blank(stdout) && is_blank(stderr) {
        seq![]
    } else if is_blank(stderr) {
        stdout
    } else if is_blank(stdout) {
        "stderr:\n"@ + stderr
    } else {
        "stdout:\n"@ + stdout + "\nstderr:\n"@ + stderr
    }
}

/// Both streams, as they may be shown, as one text.
pub fn combined_process_output(stdout: &str, stderr: &str) -> (r: String)
    ensures
        r@ == combined_output(stdout@, stderr@),
{
    let no_stdout = blank(stdout);
    let no_stderr = blank(stderr);
    if no_stdout && no_stderr {
        String::new()
    } else if no_stderr {
        stdout.to_string()
    } else if no_stdout {
        let mut r = "stderr:\n".to_string();
        r.append(stderr);
        r
    } else {
        let mut r = concat3("stdout:\n", stdout, "\nstderr:\n");
        r.append(stderr);
        r
    }
}

// ---------------------------------------------------------------------------
// Commands that write an artifact
// ---------------------------------------------------------------------------

/// Why a command that writes an artifact is not trusted.
#[derive(Debug)]
pub enum ArtifactProblem {
    /// A stream could not be read to its end.
    Incomplete,
    /// Windows Developer Mode is not enabled.
    DeveloperMode,
    /// The command printed an error.
    Reported { line: String },
    /// The command ended with a status that is no documented success.
    Status { exit_code: Option<i32> },
}

/// Whether the status of an analysis command is a success: `pixtool` may also end with
/// `-1` after it succeeded.
pub open spec fn is_accepted_status(process_success: bool, exit_code: Option<i32>) -> bool {
    process_success || exit_code == Some(-1i32)
}

pub fn accepted_status(process_success: bool, exit_code: Option<i32>) -> (r: bool)
    ensures
        r == is_accepted_status(process_success, exit_code),
{
    process_success || match exit_code {
        Some(code) => code == -1,
        None => false,
    }
}

/// Decides whether the artifact of a command may be used.
pub fn validate_artifact_command_output(
    process_success: bool,
    exit_code: Option<i32>,
    stdout: &str,
    stderr: &str,
    operation: &str,
) -> (r: Result<(), ArtifactProblem>)
    ensures
        ({
            let all = all_lines(stdout@, stderr@);
            match r {
                Ok(_) => !is_incomplete(stdout@, stderr@) && !asks_for_developer_mode(
                    unicode_lower(stdout@ + "\n"@ + stderr@),
                ) && first_error(all) == all.len() && is_accepted_status(
                    process_success,
                    exit_code,
                ),
                Err(ArtifactProblem::Incomplete) => is_incomplete(stdout@, stderr@),
                Err(ArtifactProblem::DeveloperMode) => !is_incomplete(stdout@, stderr@)
                    && asks_for_developer_mode(unicode_lower(stdout@ + "\n"@ + stderr@)),
                Err(ArtifactProblem::Reported { line }) => !is_incomplete(stdout@, stderr@)
                    && !asks_for_developer_mode(unicode_lower(stdout@ + "\n"@ + stderr@))
                    && first_error(all) < all.len() && line@ == all[first_error(all)],
                Err(ArtifactProblem::Status { exit_code: code }) => !is_incomplete(
                    stdout@,
                    stderr@,
                ) && !asks_for_developer_mode(unicode_lower(stdout@ + "\n"@ + stderr@))
                    && first_error(all) == all.len() && !is_accepted_status(
                    process_success,
                    exit_code,
                ) && code == exit_code,
            }
        }),
{
    if reject_incomplete_process_output(stdout, stderr, operation).is_err() {
        return Err(ArtifactProblem::Incomplete);
    }
    if check_developer_mode(stdout, stderr).is_err() {
        return Err(ArtifactProblem::DeveloperMode);
    }
    if let Some(line) = first_error_line(stdout, stderr) {
        return Err(ArtifactProblem::Reported { line });
    }
    if !accepted_status(process_success, exit_code) {
        return Err(ArtifactProblem::Status { exit_code });
    }
    Ok(())
}

/// An exit code as a developer would print it.
pub open spec fn exit_code_text(exit_code: Option<i32>) -> Seq<char> {
    match exit_code {
        Some(code) => "Some("@ + signed_decimal(code as int) + ")"@,
        None => "None"@,
    }
}

impl ArtifactProblem {
    /// The message about the problem, given both streams as they may be shown.
    pub open spec fn text(
        self,
        operation: Seq<char>,
        stdout: Seq<char>,
        stderr: Seq<char>,
    ) -> Seq<char> {
        match self {
            ArtifactProblem::Incomplete => incomplete_text(operation),
            ArtifactProblem::DeveloperMode => developer_mode_guidance(),
            ArtifactProblem::Reported { line } => "pixtool "@ + operation + " reported a failure ("@
                + line@ + ").\n"@ + combined_output(stdout, stderr),
            ArtifactProblem::Status { exit_code } => "pixtool "@ + operation
                + " failed with exit code "@ + exit_code_text(exit_code) + ".\n"@
                + combined_output(stdout, stderr),
        }
    }

    pub fn message(&self, operation: &str, stdout: &str, stderr: &str) -> (r: String)
        ensures
            r@ == self.text(operation@, stdout@, stderr@),
    {
        match self {
            ArtifactProblem::Incomplete => concat3(
                "pixtool ",
                operation,
                " output was truncated or could not be drained within the server's 1048576 byte per-stream limit; refusing to report an incomplete result",
            ),
            ArtifactProblem::DeveloperMode => "pixtool analysis requires Windows Developer Mode. Enable it (Settings → For developers → Developer Mode) and retry. Capturing does not need it; only open-capture analysis (event lists, screenshots, counters) does.".to_string(),
            ArtifactProblem::Reported { line } => {
                let mut r = concat3("pixtool ", operation, " reported a failure (");
                r.append(line);
                r.append(").\n");
                r.append(&combined_process_output(stdout, stderr));
                r
            },
            ArtifactProblem::Status { exit_code } => {
                let mut r = concat3("pixtool ", operation, " failed with exit code ");
                let code = match exit_code {
                    Some(code) => concat3("Some(", &signed_decimal_text(*code as i64), ")"),
                    None => "None".to_string(),
                };
                r.append(&code);
                r.append(".\n");
                r.append(&combined_process_output(stdout, stderr));
                r
            },
        }
    }
}

// ---------------------------------------------------------------------------
// Reading a stream
// ---------------------------------------------------------------------------

/// What is kept of an output stream while it is drained.
pub struct BoundedOutput {
    pub retained: Vec<u8>,
    pub truncated: bool,
}

impl BoundedOutput {
    /// Whether this is what is kept of a stream that has given `all` so far.
    pub open spec fn holds(&self, all: Seq<u8>) -> bool {
        if all.len() <= MAX_PROCESS_OUTPUT_BYTES {
            self.retained@ == all && !self.truncated
        } else {
            self.retained@ == all.take(MAX_PROCESS_OUTPUT_BYTES as int) && self.truncated
        }
    }

    /// At the start of a stream.
    pub fn new() -> (r: BoundedOutput)
        ensures
            r.holds(Seq::empty()),
    {
        BoundedOutput { retained: Vec::new(), truncated: false }
    }

    /// Takes the next bytes of the stream.
    pub fn append(&mut self, chunk: &[u8])
        requires
            old(self).retained.len() <= MAX_PROCESS_OUTPUT_BYTES,
        ensures
            forall|all: Seq<u8>| old(self).holds(all) ==> #[trigger] final(self).holds(all + chunk@),
            final(self).retained.len() <= MAX_PROCESS_OUTPUT_BYTES,
    {
        let ghost before = *self;
        let remaining: usize = MAX_PROCESS_OUTPUT_BYTES - self.retained.len();
        let taken: usize = if chunk.len() < remaining {
            chunk.len()
        } else {
            remaining
        };
        let mut i: usize = 0;
        while i < taken
            invariant
                i <= taken <= chunk.len(),
                self.retained@ == before.retained@ + chunk@.take(i as int),
                self.truncated == before.truncated,
            decreases taken - i,
        {
            self.retained.push(chunk[i]);
            i += 1;
            assert(self.retained@ =~= before.retained@ + chunk@.take(i as int));
        }
        if chunk.len() > remaining {
            self.truncated = true;
        }
        proof {
            assert forall|all: Seq<u8>| before.holds(all) implies #[trigger] self.holds(
                all + chunk@,
            ) by {
                let now = all + chunk@;
                if all.len() <= MAX_PROCESS_OUTPUT_BYTES {
                    if now.len() <= MAX_PROCESS_OUTPUT_BYTES {
                        assert(self.retained@ =~= now);
                    } else {
                        assert(self.retained@ =~= now.take(MAX_PROCESS_OUTPUT_BYTES as int));
                    }
                } else {
                    assert(self.retained@ =~= now.take(MAX_PROCESS_OUTPUT_BYTES as int));
                }
            }
        }
    }

    /// The bytes to work with once the stream has ended: all of them, or the first
    /// [`MAX_PROCESS_OUTPUT_BYTES`] and a note on a line of its own.
    pub fn finish(self) -> (r: Vec<u8>)
        ensures
            forall|all: Seq<u8>| #[trigger]
                self.holds(all) ==> r@ == (if all.len() <= MAX_PROCESS_OUTPUT_BYTES {
                    all
                } else {
                    all.take(MAX_PROCESS_OUTPUT_BYTES as int) + vstd::utf8::encode_utf8(
                        "\n[pix-mcp: process output truncated]\n"@,
                    )
                }),
    {
        let mut r = self.retained;
        if self.truncated {
            let ghost before = r@;
            let note = "\n[pix-mcp: process output truncated]\n".as_bytes();
            let mut i: usize = 0;
            while i < note.len()
                invariant
                    i <= note.len(),
                    r@ == before + note@.take(i as int),
                decreases note.len() - i,
            {
                r.push(note[i]);
                i += 1;
                assert(r@ =~= before + note@.take(i as int));
            }
            assert(note@.take(i as int) =~= note@);
        }
        r
    }
}

/// What stands for a stream whose pipe stayed open after the process had ended.
pub fn discarded_stream_note(stream: &str) -> (r: String)
    ensures
        r@ == "[pix-mcp: "@ + stream@
            + " pipe remained open after pixtool exited; output discarded]\n"@,
{
    concat3(
        "[pix-mcp: ",
        stream,
        " pipe remained open after pixtool exited; output discarded]\n",
    )
}

/// A line between two line feeds is one of the lines.
proof fn lemma_line_between(before: Seq<char>, line: Seq<char>)
    requires
        !line.contains('\n'),
    ensures
        lines(before + seq!['\n'] + line + seq!['\n']).contains(without_return(line)),
    decreases before.len(),
{
    let s = before + seq!['\n'] + line + seq!['\n'];
    lemma_first_at(before, '\n');
    let at = first_at(before, '\n');
    let rest = s.subrange(at + 1, s.len() as int);
    if at < before.len() {
        assert forall|k: int| 0 <= k < at implies s[k] != '\n' by {
            assert(s[k] == before[k]);
        }
        assert(s[at] == before[at]);
        lemma_first_at_is(s, '\n', at);
        let shorter = before.subrange(at + 1, before.len() as int);
        lemma_line_between(shorter, line);
        assert(rest =~= shorter + seq!['\n'] + line + seq!['\n']);
        let tail = lines(rest);
        let k = choose|k: int| 0 <= k < tail.len() && tail[k] == without_return(line);
        assert(lines(s)[k + 1] == tail[k]);
    } else {
        assert forall|k: int| 0 <= k < before.len() implies s[k] != '\n' by {
            assert(s[k] == before[k]);
        }
        lemma_first_at_is(s, '\n', before.len() as int);
        assert(rest =~= line + seq!['\n']);
        assert forall|k: int| 0 <= k < line.len() implies rest[k] != '\n' by {
            assert(rest[k] == line[k]);
            assert(line.contains(line[k]));
        }
        lemma_first_at_is(rest, '\n', line.len() as int);
        assert(rest.subrange(0, line.len() as int) =~= line);
        assert(lines(rest)[0] == without_return(line));
        assert(lines(s)[1] == lines(rest)[0]);
    }
}

/// A stream that was cut is recognized as incomplete, whatever it held: the note that the cut
/// leaves behind is a line of its own.
pub proof fn cut_streams_are_incomplete(text: Seq<char>, other: Seq<char>)
    ensures
        is_incomplete(text + "\n[pix-mcp: process output truncated]\n"@, other),
        is_incomplete(other, text + "\n[pix-mcp: process output truncated]\n"@),
{
    reveal_strlit("\n[pix-mcp: process output truncated]\n");
    reveal_strlit("[pix-mcp: process output truncated]");
    reveal_strlit("[pix-mcp:");
    let note = "[pix-mcp: process output truncated]"@;
    let s = text + "\n[pix-mcp: process output truncated]\n"@;
    assert(s =~= text + seq!['\n'] + note + seq!['\n']);
    assert(!note.contains('\n'));
    lemma_line_between(text, note);
    assert(without_return(note) == note);
    assert(trimmed(note) == note);
    assert(note.subrange(0, 9) =~= "[pix-mcp:"@);
    assert(is_note(note));
    let k = choose|k: int| 0 <= k < lines(s).len() && lines(s)[k] == note;
    assert(all_lines(s, other)[k] == note);
    assert(all_lines(other, s)[lines(other).len() + k] == note);
}

} // verus!
