//! Driving `pixtool`: its arguments, what it may be asked for, and what it leaves behind.

use crate::diagnostics::{
    asks_for_developer_mode, check_developer_mode, developer_mode_guidance,
};
use crate::failure::Failure;
use crate::json::{json_text, quoted};
use crate::numbers::{decimal, decimal_text};
use crate::order::{
    comes_before, sort, sorted, text_less, text_less_is_total, text_less_is_transitive, Precedence,
};
use crate::paths::{
    file_name, has_extension, has_extension_ignore_ascii_case, is_settled, name_has_extension,
    named_file, names_file, optional_has_extension,
};
use crate::text::{
    blank, chars_have_part, chars_of, concat3, contains_char, control, has_part, is_blank,
    is_control, joined, optional_text, same_text, unicode_lower,
};
use vstd::prelude::*;
use vstd::string::*;

verus! {

/// `pixtool`, as far as it is decided here what it is asked and what its answers mean.
pub struct PixTool;

/// How long an operation may take, in seconds.
pub const PIXTOOL_OPERATION_TIMEOUT_SECONDS: u64 = 600;

/// How long a launched application is watched, in seconds.
pub const PIXTOOL_LAUNCH_TIMEOUT_SECONDS: u64 = 1800;

/// How much longer than its duration a timing capture may take, in milliseconds.
pub const PIXTOOL_TIMING_GRACE_MILLIS: u64 = 30_000;

/// How many entries a capture directory may have.
pub const MAX_CAPTURE_DIRECTORY_ENTRIES: usize = 20_000;

// ---------------------------------------------------------------------------
// Arguments
// ---------------------------------------------------------------------------

/// An argument on the command line.
#[derive(Debug)]
pub enum Argument {
    /// A word or a path.
    Plain(String),
    /// An option with a value, which `pixtool` wants as `--option="value"`.
    Valued { option: String, value: String },
}

/// The contents of an argument.
pub enum Arg {
    Plain(Seq<char>),
    Valued(Seq<char>, Seq<char>),
}

impl View for Argument {
    type V = Arg;

    open spec fn view(&self) -> Arg {
        match self {
            Argument::Plain(text) => Arg::Plain(text@),
            Argument::Valued { option, value } => Arg::Valued(option@, value@),
        }
    }
}

/// The contents of all arguments.
pub open spec fn arguments(list: Seq<Argument>) -> Seq<Arg> {
    list.map_values(|argument: Argument| argument@)
}

pub broadcast proof fn lemma_arguments_push(list: Seq<Argument>, argument: Argument)
    ensures
        #[trigger] arguments(list.push(argument)) == arguments(list).push(argument@),
{
    assert(arguments(list.push(argument)) =~= arguments(list).push(argument@));
}

/// How many backslashes `s` ends with.
pub open spec fn trailing_backslashes(s: Seq<char>) -> nat
    decreases s.len(),
{
    if s.len() == 0 || s.last() != '\\' {
        0
    } else {
        1 + trailing_backslashes(s.drop_last())
    }
}

/// `n` backslashes.
pub open spec fn backslashes(n: nat) -> Seq<char> {
    Seq::new(n, |i: int| '\\')
}

/// An option with its value between quotation marks. Backslashes before the closing
/// quotation mark are doubled, so that they do not escape it.
pub open spec fn quoted_option(option: Seq<char>, value: Seq<char>) -> Seq<char> {
    option + "=\""@ + (value + backslashes(trailing_backslashes(value))) + "\""@
}

/// Formats an option as `--option="value"`.
pub fn quoted_value_option(option: &str, value: &str) -> (r: String)
    ensures
        r@ == quoted_option(option@, value@),
{
    let chars = chars_of(value);
    let mut end: usize = chars.len();
    let mut escaped = value.to_string();
    let ghost total = trailing_backslashes(value@);
    assert(value@.take(end as int) =~= value@);
    assert(escaped@ =~= value@ + backslashes(0));
    while end > 0 && chars[end - 1] == '\\'
        invariant
            end <= chars.len(),
            chars@ == value@,
            total == (chars.len() - end) + trailing_backslashes(value@.take(end as int)),
            escaped@ == value@ + backslashes((chars.len() - end) as nat),
        decreases end,
    {
        assert(value@.take(end as int).last() == value@[end - 1]);
        assert(value@.take(end as int).drop_last() =~= value@.take(end - 1));
        escaped.push('\\');
        end -= 1;
        assert(escaped@ =~= value@ + backslashes((chars.len() - end) as nat));
    }
    assert(end > 0 ==> value@.take(end as int).last() == value@[end - 1]);
    let mut r = concat3(option, "=\"", &escaped);
    r.append("\"");
    r
}

/// Formats an option as `--option=value`, for a platform that passes arguments one by one.
pub fn plain_value_option(option: &str, value: &str) -> (r: String)
    ensures
        r@ == option@ + "="@ + value@,
{
    concat3(option, "=", value)
}

/// How many backslashes `s` begins with.
pub open spec fn leading_backslashes(s: Seq<char>) -> nat
    decreases s.len(),
{
    if s.len() == 0 || s[0] != '\\' {
        0
    } else {
        1 + leading_backslashes(s.subrange(1, s.len() as int))
    }
}

pub proof fn lemma_leading_backslashes(s: Seq<char>)
    ensures
        leading_backslashes(s) <= s.len(),
        forall|k: int| 0 <= k < leading_backslashes(s) ==> #[trigger] s[k] == '\\',
        leading_backslashes(s) < s.len() ==> s[leading_backslashes(s) as int] != '\\',
    decreases s.len(),
{
    if s.len() > 0 && s[0] == '\\' {
        let rest = s.subrange(1, s.len() as int);
        lemma_leading_backslashes(rest);
        assert forall|k: int| 0 <= k < leading_backslashes(s) implies #[trigger] s[k] == '\\' by {
            if k > 0 {
                assert(s[k] == rest[k - 1]);
            }
        }
        if leading_backslashes(s) < s.len() {
            assert(s[leading_backslashes(s) as int] == rest[leading_backslashes(rest) as int]);
        }
    }
}

/// The first argument on a Windows command line. A space outside quotation marks ends it.
/// Backslashes stand for themselves, except before a quotation mark: there each pair stands
/// for one, and one that is left over makes the quotation mark stand for itself.
pub open spec fn first_argument(s: Seq<char>, in_quotes: bool) -> Seq<char>
    decreases s.len(),
{
    proof {
        lemma_leading_backslashes(s);
    }
    let n = leading_backslashes(s);
    if s.len() == 0 {
        seq![]
    } else if n > 0 {
        if n < s.len() && s[n as int] == '"' {
            let rest = s.skip(n as int + 1);
            if n % 2 == 0 {
                backslashes(n / 2) + first_argument(rest, !in_quotes)
            } else {
                backslashes(n / 2).push('"') + first_argument(rest, in_quotes)
            }
        } else {
            backslashes(n) + first_argument(s.skip(n as int), in_quotes)
        }
    } else if s[0] == '"' {
        first_argument(s.skip(1), !in_quotes)
    } else if !in_quotes && (s[0] == ' ' || s[0] == '\t') {
        seq![]
    } else {
        seq![s[0]] + first_argument(s.skip(1), in_quotes)
    }
}

/// Whether a text holds nothing that a command line gives a meaning to.
pub open spec fn is_plain_word(s: Seq<char>) -> bool {
    !s.contains('"') && !s.contains('\\') && !s.contains(' ') && !s.contains('\t')
}

proof fn lemma_leading_is(s: Seq<char>, n: int)
    requires
        0 <= n <= s.len(),
        forall|k: int| 0 <= k < n ==> #[trigger] s[k] == '\\',
        n < s.len() ==> s[n] != '\\',
    ensures
        leading_backslashes(s) == n,
{
    lemma_leading_backslashes(s);
    let m = leading_backslashes(s) as int;
    if m < n {
        assert(s[m] == '\\');
    }
    if n < m {
        assert(s[n] == '\\');
    }
}

proof fn lemma_trailing(s: Seq<char>)
    ensures
        trailing_backslashes(s) <= s.len(),
        forall|k: int| s.len() - trailing_backslashes(s) <= k < s.len() ==> #[trigger] s[k] == '\\',
        trailing_backslashes(s) < s.len() ==> s[s.len() - trailing_backslashes(s) - 1] != '\\',
    decreases s.len(),
{
    if s.len() > 0 && s.last() == '\\' {
        let head = s.drop_last();
        lemma_trailing(head);
        assert forall|k: int| s.len() - trailing_backslashes(s) <= k < s.len() implies
            #[trigger] s[k] == '\\' by {
            if k < s.len() - 1 {
                assert(s[k] == head[k]);
            }
        }
        if trailing_backslashes(s) < s.len() {
            assert(s[s.len() - trailing_backslashes(s) - 1] == head[head.len()
                - trailing_backslashes(head) - 1]);
        }
    }
}

proof fn lemma_trailing_is(s: Seq<char>, n: int)
    requires
        0 <= n <= s.len(),
        forall|k: int| s.len() - n <= k < s.len() ==> #[trigger] s[k] == '\\',
        n < s.len() ==> s[s.len() - n - 1] != '\\',
    ensures
        trailing_backslashes(s) == n,
{
    lemma_trailing(s);
    let m = trailing_backslashes(s) as int;
    if m < n {
        assert(s[s.len() - m - 1] == '\\');
    }
    if n < m {
        assert(s[s.len() - n - 1] == '\\');
    }
}

/// Inside quotation marks, a value without one is read as it is, up to the closing mark.
proof fn lemma_quoted_value(value: Seq<char>)
    requires
        !value.contains('"'),
    ensures
        first_argument(
            value + backslashes(trailing_backslashes(value)) + seq!['"'],
            true,
        ) == value,
    decreases value.len(),
{
    let t = trailing_backslashes(value);
    lemma_trailing(value);
    let s = value + backslashes(t) + seq!['"'];
    assert(s.last() == '"');
    if t == value.len() {
        assert(value =~= backslashes(t));
        if t == 0 {
            assert(s =~= seq!['"']);
            lemma_leading_is(s, 0);
            assert(s.skip(1) =~= seq![]);
            assert(first_argument(s.skip(1), false) =~= seq![]);
            assert(first_argument(s, true) =~= value);
        } else {
            lemma_leading_is(s, 2 * (t as int));
            assert(s.skip(2 * (t as int) + 1) =~= seq![]);
            assert(first_argument(s.skip(2 * (t as int) + 1), false) =~= seq![]);
            assert(first_argument(s, true) =~= value);
        }
    } else {
        lemma_leading_backslashes(value);
        let n = leading_backslashes(value) as int;
        assert(value.contains(value[value.len() - t - 1]));
        if n == value.len() {
            assert(value[value.len() - t - 1] == '\\');
        }
        assert(value.contains(value[n]));
        assert(s[n] == value[n]);
        assert forall|k: int| 0 <= k < n implies #[trigger] s[k] == '\\' by {
            assert(s[k] == value[k]);
        }
        lemma_leading_is(s, n);
        let cut_at = if n > 0 {
            n
        } else {
            1
        };
        let rest = value.skip(cut_at);
        assert(cut_at + t <= value.len()) by {
            if n > 0 && n + t > value.len() {
                assert(value[value.len() - t - 1] == '\\');
            }
        }
        assert forall|k: int| rest.len() - t <= k < rest.len() implies #[trigger] rest[k]
            == '\\' by {
            assert(rest[k] == value[k + cut_at]);
        }
        if t < rest.len() {
            assert(rest[rest.len() - t - 1] == value[value.len() - t - 1]);
        }
        lemma_trailing_is(rest, t as int);
        assert forall|c: char| rest.contains(c) implies value.contains(c) by {
            let k = choose|k: int| 0 <= k < rest.len() && rest[k] == c;
            assert(value[k + cut_at] == c);
        }
        lemma_quoted_value(rest);
        assert(s.skip(cut_at) =~= rest + backslashes(t) + seq!['"']);
        if n > 0 {
            assert(first_argument(s, true) =~= backslashes(n as nat) + rest);
            assert(value =~= backslashes(n as nat) + rest);
        } else {
            assert(first_argument(s, true) =~= seq![value[0]] + rest);
            assert(value =~= seq![value[0]] + rest);
        }
    }
}

proof fn lemma_plain_prefix(word: Seq<char>, rest: Seq<char>)
    requires
        is_plain_word(word),
    ensures
        first_argument(word + rest, false) == word + first_argument(rest, false),
    decreases word.len(),
{
    if word.len() == 0 {
        assert(word + rest =~= rest);
        assert(word + first_argument(rest, false) =~= first_argument(rest, false));
    } else {
        let s = word + rest;
        assert(word.contains(word[0]));
        lemma_leading_is(s, 0);
        let tail = word.skip(1);
        assert forall|c: char| tail.contains(c) implies word.contains(c) by {
            let k = choose|k: int| 0 <= k < tail.len() && tail[k] == c;
            assert(word[k + 1] == c);
        }
        lemma_plain_prefix(tail, rest);
        assert(s.skip(1) =~= tail + rest);
        assert(seq![word[0]] + (tail + first_argument(rest, false)) =~= word + first_argument(
            rest,
            false,
        ));
    }
}

/// A formatted option is read back from a Windows command line as the option and its value,
/// whatever spaces and backslashes the value holds.
pub proof fn quoted_option_is_read_back(option: Seq<char>, value: Seq<char>)
    requires
        is_plain_word(option),
        !value.contains('"'),
    ensures
        first_argument(quoted_option(option, value), false) == option + "="@ + value,
{
    reveal_strlit("=\"");
    reveal_strlit("\"");
    reveal_strlit("=");
    let escaped = value + backslashes(trailing_backslashes(value));
    let word = option + seq!['='];
    let inner = escaped + seq!['"'];
    let rest = seq!['"'] + inner;
    assert(quoted_option(option, value) =~= word + rest);
    assert forall|c: char| word.contains(c) implies option.contains(c) || c == '=' by {
        let k = choose|k: int| 0 <= k < word.len() && word[k] == c;
        if k < option.len() {
            assert(option[k] == c);
        }
    }
    lemma_plain_prefix(word, rest);
    lemma_quoted_value(value);
    lemma_leading_is(rest, 0);
    assert(rest.skip(1) =~= inner);
    assert(word + value =~= option + "="@ + value);
}

/// Whether a `--command-line` value is one that `pixtool` rejects: one with a space, or one
/// that starts with `-` or `+`.
pub open spec fn is_unsupported(value: Seq<char>) -> bool {
    value.contains(' ') || (value.len() > 0 && (value[0] == '-' || value[0] == '+'))
}

pub fn command_line_unsupported(value: &str) -> (r: bool)
    ensures
        r == is_unsupported(value@),
{
    let chars = chars_of(value);
    contains_char(value, ' ') || (chars.len() > 0 && (chars[0] == '-' || chars[0] == '+'))
}

/// Whether a text can be passed between quotation marks.
pub open spec fn is_safe(value: Seq<char>) -> bool {
    forall|i: int| 0 <= i < value.len() ==> #[trigger] value[i] != '"' && !is_control(value[i])
}

pub open spec fn unsafe_text(label: Seq<char>) -> Seq<char> {
    label
        + " contains a quote or control character, which cannot be passed safely to pixtool"@
}

/// Refuses a text that cannot be passed between quotation marks.
pub fn validate_raw_value(label: &str, value: &str) -> (r: Result<(), Failure>)
    ensures
        r is Ok == is_safe(value@),
        r matches Err(e) ==> e.message@ == unsafe_text(label@),
{
    let chars = chars_of(value);
    let mut i: usize = 0;
    while i < chars.len()
        invariant
            i <= chars.len(),
            chars@ == value@,
            forall|k: int| 0 <= k < i ==> #[trigger] value@[k] != '"' && !is_control(value@[k]),
        decreases chars.len() - i,
    {
        if chars[i] == '"' || control(chars[i]) {
            assert(value@[i as int] == '"' || is_control(value@[i as int]));
            let mut message = label.to_string();
            message.append(
                " contains a quote or control character, which cannot be passed safely to pixtool",
            );
            return Err(Failure::new(message));
        }
        i += 1;
    }
    Ok(())
}

/// An option with a value that can be passed.
pub fn push_value_option(list: &mut Vec<Argument>, option: &str, value: &str) -> (r: Result<
    (),
    Failure,
>)
    ensures
        r is Ok == is_safe(value@),
        r is Ok ==> arguments(final(list)@) == arguments(old(list)@).push(
            Arg::Valued(option@, value@),
        ),
        r matches Err(e) ==> e.message@ == unsafe_text(option@) && final(list)@ == old(list)@,
{
    broadcast use lemma_arguments_push;

    validate_raw_value(option, value)?;
    list.push(Argument::Valued { option: option.to_string(), value: value.to_string() });
    Ok(())
}

// ---------------------------------------------------------------------------
// Application arguments
// ---------------------------------------------------------------------------

/// The characters of every text in `items`.
pub open spec fn str_texts(items: Seq<&str>) -> Seq<Seq<char>> {
    items.map_values(|item: &str| item@)
}

/// What the `Debug` format makes of a text.
pub uninterp spec fn debug_text(s: Seq<char>) -> Seq<char>;

/// The `Debug` format of a text. It depends on the text alone; printable ASCII characters other
/// than the quotation mark and the backslash stand for themselves between quotation marks.
#[verifier::external_body]
fn debug_format(s: &str) -> (r: String)
    ensures
        r@ == debug_text(s@),
        (forall|i: int|
            0 <= i < s@.len() ==> ' ' <= #[trigger] s@[i] <= '~' && s@[i] != '"' && s@[i] != '\\')
            ==> r@ == seq!['"'] + s@ + seq!['"'],
{
    format!("{s:?}")
}

/// What is said of application arguments that `pixtool` would reject.
pub open spec fn unsupported_text(shown: Seq<char>) -> Seq<char> {
    "pixtool 2603.25 cannot safely pass these application arguments via --command-line: "@ + shown
        + ". Values containing spaces and values starting with '-' or '+' are rejected. Use the application's config/autoexec file or an environment variable instead."@
}

/// What is wrong with one application argument, if anything.
pub open spec fn argument_problem(value: Seq<char>) -> Option<Seq<char>> {
    if value.len() == 0 {
        Some("Application arguments must not be empty"@)
    } else if !is_safe(value) {
        Some(unsafe_text("Application argument"@))
    } else {
        None
    }
}

/// The first problem among application arguments, if any.
pub open spec fn arguments_problem(args: Seq<Seq<char>>) -> Option<Seq<char>>
    decreases args.len(),
{
    if args.len() == 0 {
        None
    } else {
        match arguments_problem(args.drop_last()) {
            Some(problem) => Some(problem),
            None => argument_problem(args.last()),
        }
    }
}

/// What the application is launched with, if anything, or why it is not launched.
pub open spec fn command_line(args: Seq<Seq<char>>) -> Result<Option<Seq<char>>, Seq<char>> {
    let all = joined(args, " "@);
    if args.len() == 0 {
        Ok(None)
    } else {
        match arguments_problem(args) {
            Some(problem) => Err(problem),
            None => if is_unsupported(all) {
                Err(unsupported_text(debug_text(all)))
            } else {
                Ok(Some(all))
            },
        }
    }
}

fn check_argument(value: &str) -> (r: Result<(), Failure>)
    ensures
        match argument_problem(value@) {
            None => r is Ok,
            Some(problem) => r is Err && r->Err_0.message@ == problem,
        },
{
    if value.is_empty() {
        return Err(Failure::of("Application arguments must not be empty"));
    }
    validate_raw_value("Application argument", value)
}

/// Accepts the few application arguments that `pixtool` passes on correctly, before anything
/// is launched.
pub fn validate_command_line_args(args: &[&str]) -> (r: Result<Option<String>, Failure>)
    ensures
        match (r, command_line(str_texts(args@))) {
            (Ok(Some(text)), Ok(Some(expected))) => text@ == expected,
            (Ok(None), Ok(None)) => true,
            (Err(e), Err(message)) => e.message@ == message,
            _ => false,
        },
{
    let ghost all = str_texts(args@);
    if args.len() == 0 {
        return Ok(None);
    }
    let mut line = String::new();
    let mut i: usize = 0;
    assert(line@ =~= joined(all.take(0), " "@));
    while i < args.len()
        invariant
            i <= args.len(),
            args.len() > 0,
            all == str_texts(args@),
            arguments_problem(all.take(i as int)) is None,
            line@ == joined(all.take(i as int), " "@),
        decreases args.len() - i,
    {
        proof {
            let now = all.take(i + 1);
            assert(now.drop_last() =~= all.take(i as int));
            assert(now.last() == args@[i as int]@);
        }
        if let Err(e) = check_argument(args[i]) {
            proof {
                lemma_problem_stays(all, i + 1);
            }
            return Err(e);
        }
        if i > 0 {
            line.append(" ");
        }
        line.append(args[i]);
        assert(line@ =~= joined(all.take(i + 1), " "@));
        i += 1;
    }
    assert(all.take(i as int) =~= all);
    if command_line_unsupported(&line) {
        let shown = debug_format(&line);
        return Err(
            Failure::new(
                concat3(
                    "pixtool 2603.25 cannot safely pass these application arguments via --command-line: ",
                    &shown,
                    ". Values containing spaces and values starting with '-' or '+' are rejected. Use the application's config/autoexec file or an environment variable instead.",
                ),
            ),
        );
    }
    Ok(Some(line))
}

proof fn lemma_problem_stays(args: Seq<Seq<char>>, n: int)
    requires
        0 <= n <= args.len(),
        arguments_problem(args.take(n)) is Some,
    ensures
        arguments_problem(args) == arguments_problem(args.take(n)),
    decreases args.len(),
{
    if n < args.len() {
        assert(args.drop_last().take(n) =~= args.take(n));
        lemma_problem_stays(args.drop_last(), n);
    } else {
        assert(args.take(n) =~= args);
    }
}

/// An accepted command line is one word: more than one argument is never passed on.
pub proof fn only_one_application_argument_is_passed(args: Seq<Seq<char>>)
    requires
        command_line(args) is Ok,
    ensures
        args.len() <= 1,
        args.len() == 1 ==> command_line(args) == Ok::<Option<Seq<char>>, Seq<char>>(
            Some(args[0]),
        ),
{
    if args.len() > 1 {
        reveal_strlit(" ");
        let all = joined(args, " "@);
        let head = joined(args.drop_last(), " "@);
        assert(all[head.len() as int] == ' ');
        assert(all.contains(' '));
    }
}

// ---------------------------------------------------------------------------
// Bounds of a request
// ---------------------------------------------------------------------------

/// A process must be named.
pub fn validate_process_id(process_id: u32) -> (r: Result<(), Failure>)
    ensures
        r is Err == (process_id == 0),
        r matches Err(e) ==> e.message@ == "process_id must be greater than zero"@,
{
    if process_id == 0 {
        return Err(Failure::of("process_id must be greater than zero"));
    }
    Ok(())
}

/// How many frames are captured: one where the request says nothing.
pub fn validate_frames(frames: Option<u32>) -> (r: Result<u32, Failure>)
    ensures
        ({
            let wanted = match frames {
                Some(n) => n,
                None => 1,
            };
            if 1 <= wanted <= 120 {
                r == Ok::<u32, Failure>(wanted)
            } else {
                r is Err && r->Err_0.message@ == "frames must be between 1 and 120"@
            }
        }),
{
    let wanted: u32 = match frames {
        Some(n) => n,
        None => 1,
    };
    if wanted < 1 || wanted > 120 {
        return Err(Failure::of("frames must be between 1 and 120"));
    }
    Ok(wanted)
}

/// How long a timing capture takes, in milliseconds: 100 where the request says nothing.
pub fn validate_duration(duration_ms: Option<u32>) -> (r: Result<u32, Failure>)
    ensures
        ({
            let wanted = match duration_ms {
                Some(n) => n,
                None => 100,
            };
            if 1 <= wanted <= 600_000 {
                r == Ok::<u32, Failure>(wanted)
            } else {
                r is Err && r->Err_0.message@ == "duration_ms must be between 1 and 600000"@
            }
        }),
{
    let wanted: u32 = match duration_ms {
        Some(n) => n,
        None => 100,
    };
    if wanted < 1 || wanted > 600_000 {
        return Err(Failure::of("duration_ms must be between 1 and 600000"));
    }
    Ok(wanted)
}

/// How long a timing capture may take until it is given up, in milliseconds.
pub fn timing_timeout_millis(duration_ms: u32) -> (r: u64)
    ensures
        r == duration_ms + PIXTOOL_TIMING_GRACE_MILLIS,
{
    duration_ms as u64 + PIXTOOL_TIMING_GRACE_MILLIS
}

// ---------------------------------------------------------------------------
// Commands
// ---------------------------------------------------------------------------

fn push_plain(list: &mut Vec<Argument>, text: &str)
    ensures
        arguments(final(list)@) == arguments(old(list)@).push(Arg::Plain(text@)),
{
    broadcast use lemma_arguments_push;

    list.push(Argument::Plain(text.to_string()));
}

/// The options that a launch has: the application's arguments and its working directory.
pub open spec fn launch_options(
    command_line: Option<Seq<char>>,
    working_dir: Option<Seq<char>>,
) -> Seq<Arg> {
    (match command_line {
        Some(text) => seq![Arg::Valued("--command-line"@, text)],
        None => seq![],
    }) + (match working_dir {
        Some(text) => seq![Arg::Valued("--working-directory"@, text)],
        None => seq![],
    })
}

/// Which of the options cannot be passed, if any.
pub open spec fn launch_options_problem(
    command_line: Option<Seq<char>>,
    working_dir: Option<Seq<char>>,
) -> Option<Seq<char>> {
    if command_line is Some && !is_safe(command_line->0) {
        Some(unsafe_text("--command-line"@))
    } else if working_dir is Some && !is_safe(working_dir->0) {
        Some(unsafe_text("--working-directory"@))
    } else {
        None
    }
}

fn push_launch_options(
    list: &mut Vec<Argument>,
    command_line: &Option<String>,
    working_dir: &Option<String>,
) -> (r: Result<(), Failure>)
    ensures
        match launch_options_problem(
            optional_text(*command_line),
            optional_text(*working_dir),
        ) {
            None => r is Ok && arguments(final(list)@) == arguments(old(list)@) + launch_options(
                optional_text(*command_line),
                optional_text(*working_dir),
            ),
            Some(problem) => r is Err && r->Err_0.message@ == problem,
        },
{
    let ghost before = arguments(list@);
    if let Some(text) = command_line {
        push_value_option(list, "--command-line", text)?;
    }
    if let Some(text) = working_dir {
        push_value_option(list, "--working-directory", text)?;
    }
    assert(arguments(list@) =~= before + launch_options(
        optional_text(*command_line),
        optional_text(*working_dir),
    ));
    Ok(())
}

/// Whether `r` holds the arguments `expected`, or says what is wrong with the options.
pub open spec fn is_command(
    r: Result<Vec<Argument>, Failure>,
    problem: Option<Seq<char>>,
    expected: Seq<Arg>,
) -> bool {
    match (r, problem) {
        (Ok(list), None) => arguments(list@) == expected,
        (Err(e), Some(message)) => e.message@ == message,
        _ => false,
    }
}

impl PixTool {
    /// Launches an application under PIX.
    pub fn launch(
        exe_path: &str,
        command_line: &Option<String>,
        working_dir: &Option<String>,
    ) -> (r: Result<Vec<Argument>, Failure>)
        ensures
            is_command(
                r,
                launch_options_problem(
                    optional_text(*command_line),
                    optional_text(*working_dir),
                ),
                seq![Arg::Plain("launch"@), Arg::Plain(exe_path@)] + launch_options(
                    optional_text(*command_line),
                    optional_text(*working_dir),
                ),
            ),
    {
        let mut list: Vec<Argument> = Vec::new();
        push_plain(&mut list, "launch");
        push_plain(&mut list, exe_path);
        assert(arguments(list@) =~= seq![Arg::Plain("launch"@), Arg::Plain(exe_path@)]);
        push_launch_options(&mut list, command_line, working_dir)?;
        Ok(list)
    }

    /// Launches an application and captures its first frame. The capture is saved to
    /// `capture_file`, or opened in PIX where there is none.
    pub fn launch_and_capture(
        exe_path: &str,
        command_line: &Option<String>,
        working_dir: &Option<String>,
        capture_file: &Option<String>,
    ) -> (r: Result<Vec<Argument>, Failure>)
        ensures
            is_command(
                r,
                launch_options_problem(
                    optional_text(*command_line),
                    optional_text(*working_dir),
                ),
                seq![
                    Arg::Plain("launch"@),
                    Arg::Plain(exe_path@),
                    Arg::Plain("--captureFromStart"@),
                ] + launch_options(
                    optional_text(*command_line),
                    optional_text(*working_dir),
                ) + seq![Arg::Plain("take-capture"@), Arg::Plain("--frames=1"@)] + (
                match capture_file {
                    Some(path) => seq![Arg::Plain("save-capture"@), Arg::Plain(path@)],
                    None => seq![Arg::Plain("--open"@)],
                }),
            ),
    {
        let mut list: Vec<Argument> = Vec::new();
        push_plain(&mut list, "launch");
        push_plain(&mut list, exe_path);
        push_plain(&mut list, "--captureFromStart");
        assert(arguments(list@) =~= seq![
            Arg::Plain("launch"@),
            Arg::Plain(exe_path@),
            Arg::Plain("--captureFromStart"@),
        ]);
        push_launch_options(&mut list, command_line, working_dir)?;
        let ghost before = arguments(list@);
        push_plain(&mut list, "take-capture");
        push_plain(&mut list, "--frames=1");
        let ghost middle = before + seq![Arg::Plain("take-capture"@), Arg::Plain("--frames=1"@)];
        assert(arguments(list@) =~= middle);
        match capture_file {
            Some(path) => {
                push_plain(&mut list, "save-capture");
                push_plain(&mut list, path);
                assert(arguments(list@) =~= middle + seq![
                    Arg::Plain("save-capture"@),
                    Arg::Plain(path@),
                ]);
            },
            None => {
                push_plain(&mut list, "--open");
                assert(arguments(list@) =~= middle + seq![Arg::Plain("--open"@)]);
            },
        }
        Ok(list)
    }

    /// Captures a frame of a running process.
    pub fn gpu_capture_process(process_id: u32, output_path: &str) -> (r: Vec<Argument>)
        ensures
            arguments(r@) == seq![
                Arg::Plain("attach"@),
                Arg::Plain(decimal(process_id as nat)),
                Arg::Plain("take-capture"@),
                Arg::Plain("save-capture"@),
                Arg::Plain(output_path@),
            ],
    {
        let mut list: Vec<Argument> = Vec::new();
        push_plain(&mut list, "attach");
        push_plain(&mut list, &decimal_text(process_id as u64));
        push_plain(&mut list, "take-capture");
        push_plain(&mut list, "save-capture");
        push_plain(&mut list, output_path);
        assert(arguments(list@) =~= seq![
            Arg::Plain("attach"@),
            Arg::Plain(decimal(process_id as nat)),
            Arg::Plain("take-capture"@),
            Arg::Plain("save-capture"@),
            Arg::Plain(output_path@),
        ]);
        list
    }

    /// Launches an application, captures `frames` frames and saves them.
    pub fn gpu_capture_launch(
        exe_path: &str,
        command_line: &Option<String>,
        working_dir: &Option<String>,
        frames: u32,
        output_path: &str,
    ) -> (r: Result<Vec<Argument>, Failure>)
        ensures
            is_command(
                r,
                launch_options_problem(
                    optional_text(*command_line),
                    optional_text(*working_dir),
                ),
                seq![Arg::Plain("launch"@), Arg::Plain(exe_path@)] + launch_options(
                    optional_text(*command_line),
                    optional_text(*working_dir),
                ) + seq![
                    Arg::Plain("take-capture"@),
                    Arg::Plain("--frames="@ + decimal(frames as nat)),
                    Arg::Plain("save-capture"@),
                    Arg::Plain(output_path@),
                ],
            ),
    {
        let mut list: Vec<Argument> = Vec::new();
        push_plain(&mut list, "launch");
        push_plain(&mut list, exe_path);
        assert(arguments(list@) =~= seq![Arg::Plain("launch"@), Arg::Plain(exe_path@)]);
        push_launch_options(&mut list, command_line, working_dir)?;
        let ghost before = arguments(list@);
        push_plain(&mut list, "take-capture");
        let mut bound = "--frames=".to_string();
        bound.append(&decimal_text(frames as u64));
        push_plain(&mut list, &bound);
        push_plain(&mut list, "save-capture");
        push_plain(&mut list, output_path);
        assert(arguments(list@) =~= before + seq![
            Arg::Plain("take-capture"@),
            Arg::Plain("--frames="@ + decimal(frames as nat)),
            Arg::Plain("save-capture"@),
            Arg::Plain(output_path@),
        ]);
        Ok(list)
    }

    /// Takes a timing capture of a running process.
    pub fn timing_capture_process(process_id: u32, output_path: &str, duration_ms: u32) -> (r: Vec<
        Argument,
    >)
        ensures
            arguments(r@) == seq![
                Arg::Plain("attach"@),
                Arg::Plain(decimal(process_id as nat)),
                Arg::Plain("take-new-timing-capture"@),
                Arg::Plain(output_path@),
                Arg::Plain("--duration="@ + decimal(duration_ms as nat)),
            ],
    {
        let mut list: Vec<Argument> = Vec::new();
        push_plain(&mut list, "attach");
        push_plain(&mut list, &decimal_text(process_id as u64));
        push_plain(&mut list, "take-new-timing-capture");
        push_plain(&mut list, output_path);
        let mut bound = "--duration=".to_string();
        bound.append(&decimal_text(duration_ms as u64));
        push_plain(&mut list, &bound);
        assert(arguments(list@) =~= seq![
            Arg::Plain("attach"@),
            Arg::Plain(decimal(process_id as nat)),
            Arg::Plain("take-new-timing-capture"@),
            Arg::Plain(output_path@),
            Arg::Plain("--duration="@ + decimal(duration_ms as nat)),
        ]);
        list
    }

    /// Saves the event list of a capture, with the counters that `counters` selects.
    pub fn save_event_list(capture_path: &str, csv_path: &str, counters: &Option<String>) -> (r:
        Result<Vec<Argument>, Failure>)
        ensures
            is_command(
                r,
                match counters {
                    Some(pattern) => if is_safe(pattern@) {
                        None
                    } else {
                        Some(unsafe_text("--counters"@))
                    },
                    None => None,
                },
                seq![
                    Arg::Plain("open-capture"@),
                    Arg::Plain(capture_path@),
                    Arg::Plain("save-event-list"@),
                    Arg::Plain(csv_path@),
                ] + (match counters {
                    Some(pattern) => seq![Arg::Valued("--counters"@, pattern@)],
                    None => seq![],
                }),
            ),
    {
        let mut list: Vec<Argument> = Vec::new();
        push_plain(&mut list, "open-capture");
        push_plain(&mut list, capture_path);
        push_plain(&mut list, "save-event-list");
        push_plain(&mut list, csv_path);
        let ghost before = seq![
            Arg::Plain("open-capture"@),
            Arg::Plain(capture_path@),
            Arg::Plain("save-event-list"@),
            Arg::Plain(csv_path@),
        ];
        assert(arguments(list@) =~= before);
        match counters {
            Some(pattern) => {
                push_value_option(&mut list, "--counters", pattern)?;
                assert(arguments(list@) =~= before + seq![Arg::Valued("--counters"@, pattern@)]);
            },
            None => {
                assert(arguments(list@) =~= before + seq![]);
            },
        }
        Ok(list)
    }

    /// Runs a verb without options on a capture, such as `list-counters`.
    pub fn run_on_capture(capture_path: &str, verb: &str) -> (r: Vec<Argument>)
        ensures
            arguments(r@) == seq![
                Arg::Plain("open-capture"@),
                Arg::Plain(capture_path@),
                Arg::Plain(verb@),
            ],
    {
        let mut list: Vec<Argument> = Vec::new();
        push_plain(&mut list, "open-capture");
        push_plain(&mut list, capture_path);
        push_plain(&mut list, verb);
        assert(arguments(list@) =~= seq![
            Arg::Plain("open-capture"@),
            Arg::Plain(capture_path@),
            Arg::Plain(verb@),
        ]);
        list
    }
}

// ---------------------------------------------------------------------------
// Answers
// ---------------------------------------------------------------------------

/// What came of a launch.
#[derive(Debug)]
pub struct LaunchResult {
    /// The launcher's process, not the application's.
    pub process_id: u32,
    pub message: String,
}

/// What came of a capture.
#[derive(Debug)]
pub struct CaptureResult {
    pub output_path: String,
    pub message: String,
    pub stdout: String,
}

/// The answer to a launch.
pub fn launched(exe_path: &str, process_id: u32) -> (r: LaunchResult)
    ensures
        r.process_id == process_id,
        r.message@ == "Launched "@ + exe_path@ + " under pixtool (pixtool PID: "@ + decimal(
            process_id as nat,
        )
            + " — this is the launcher process, not the game). For a programmatic GPU capture use pix_gpu_capture_launch or pix_capture_and_analyze: PIX can only GPU-capture a process it launched itself, so attaching by PID to a separately-started game will fail."@,
{
    let mut message = concat3("Launched ", exe_path, " under pixtool (pixtool PID: ");
    message.append(&decimal_text(process_id as u64));
    message.append(
        " — this is the launcher process, not the game). For a programmatic GPU capture use pix_gpu_capture_launch or pix_capture_and_analyze: PIX can only GPU-capture a process it launched itself, so attaching by PID to a separately-started game will fail.",
    );
    LaunchResult { process_id, message }
}

/// The answer to a launch whose capture was saved to `capture_file`, or opened in PIX.
pub fn launched_with_capture(exe_path: &str, process_id: u32, capture_file: &Option<String>) -> (r:
    LaunchResult)
    ensures
        r.process_id == process_id,
        r.message@ == match capture_file {
            Some(path) => "Captured "@ + exe_path@
                + " from launch and saved a non-empty capture to "@ + path@
                + " (pixtool launcher PID was "@ + decimal(process_id as nat) + ")"@,
            None => "Started "@ + exe_path@
                + " under PIX and requested a one-frame capture to open in the PIX GUI (pixtool launcher PID: "@
                + decimal(process_id as nat) + ")"@,
        },
{
    let mut message = match capture_file {
        Some(path) => {
            let mut text = concat3(
                "Captured ",
                exe_path,
                " from launch and saved a non-empty capture to ",
            );
            text.append(path);
            text.append(" (pixtool launcher PID was ");
            text
        },
        None => concat3(
            "Started ",
            exe_path,
            " under PIX and requested a one-frame capture to open in the PIX GUI (pixtool launcher PID: ",
        ),
    };
    message.append(&decimal_text(process_id as u64));
    message.append(")");
    LaunchResult { process_id, message }
}

/// The answer to a capture that was saved. `what` is the kind of capture.
pub fn captured(what: &str, output_path: String, public_stdout: String) -> (r: CaptureResult)
    ensures
        r.output_path == output_path,
        r.message@ == what@ + " saved to "@ + output_path@,
        r.stdout == public_stdout,
{
    let message = concat3(what, " saved to ", &output_path);
    CaptureResult { output_path, message, stdout: public_stdout }
}

/// What is said of a command that failed, with the streams as they may be shown.
pub open spec fn failed_text(what: Seq<char>, stdout: Seq<char>, stderr: Seq<char>) -> Seq<char> {
    what + " failed:\nstderr: "@ + stderr + "\nstdout: "@ + stdout
}

/// The refusal of a command that failed, with the streams as they may be shown.
pub fn command_failed(what: &str, public_stdout: &str, public_stderr: &str) -> (r: Failure)
    ensures
        r.message@ == failed_text(what@, public_stdout@, public_stderr@),
{
    let mut message = concat3(what, " failed:\nstderr: ", public_stderr);
    message.append("\nstdout: ");
    message.append(public_stdout);
    Failure::new(message)
}

/// Why a command did not run to its end.
#[derive(Debug)]
pub enum RunProblem {
    /// No slot became free in time.
    QueueTimeout { seconds: u64 },
    /// There are no slots any more.
    LimiterClosed,
    /// All slots for launches in the background are taken.
    TooManyLaunches,
    NotStarted { error: String },
    NoProcessId,
    NoStream { stream: String },
    StreamTaskFailed { stream: String, error: String },
    StreamUnreadable { stream: String, error: String },
    WaitFailed { error: String },
    TimedOut { seconds: u64 },
    /// A launch in the background ended at once.
    StartFailed { error: String },
    EndedAtOnce { status: String },
}

impl RunProblem {
    pub open spec fn text(self, operation: Seq<char>) -> Seq<char> {
        match self {
            RunProblem::QueueTimeout { seconds } => operation + " waited "@ + decimal(
                seconds as nat,
            ) + " seconds for a pixtool execution slot"@,
            RunProblem::LimiterClosed => "pixtool concurrency limiter is closed"@,
            RunProblem::TooManyLaunches =>
                "Too many background PIX launches are already running (maximum 4)"@,
            RunProblem::NotStarted { error } => "Failed to start "@ + operation + ": "@ + error@,
            RunProblem::NoProcessId => operation + " started without a process ID"@,
            RunProblem::NoStream { stream } => operation + " "@ + stream@
                + " pipe was not available"@,
            RunProblem::StreamTaskFailed { stream, error } => stream@ + " reader task failed: "@
                + error@,
            RunProblem::StreamUnreadable { stream, error } => "Failed to read pixtool "@ + stream@
                + ": "@ + error@,
            RunProblem::WaitFailed { error } => "Failed while waiting for "@ + operation + ": "@
                + error@,
            RunProblem::TimedOut { seconds } => operation + " timed out after "@ + decimal(
                seconds as nat,
            ) + " seconds and was terminated"@,
            RunProblem::StartFailed { error } => "Failed while starting "@ + operation + ": "@
                + error@,
            RunProblem::EndedAtOnce { status } => operation + " exited immediately with "@
                + status@,
        }
    }

    /// The message about the problem.
    pub fn message(&self, operation: &str) -> (r: String)
        ensures
            r@ == self.text(operation@),
    {
        match self {
            RunProblem::QueueTimeout { seconds } => {
                let mut r = concat3(operation, " waited ", &decimal_text(*seconds));
                r.append(" seconds for a pixtool execution slot");
                r
            },
            RunProblem::LimiterClosed => "pixtool concurrency limiter is closed".to_string(),
            RunProblem::TooManyLaunches =>
                "Too many background PIX launches are already running (maximum 4)".to_string(),
            RunProblem::NotStarted { error } => {
                let mut r = concat3("Failed to start ", operation, ": ");
                r.append(error);
                r
            },
            RunProblem::NoProcessId => {
                let mut r = operation.to_string();
                r.append(" started without a process ID");
                r
            },
            RunProblem::NoStream { stream } => {
                let mut r = concat3(operation, " ", stream);
                r.append(" pipe was not available");
                r
            },
            RunProblem::StreamTaskFailed { stream, error } => concat3(
                stream,
                " reader task failed: ",
                error,
            ),
            RunProblem::StreamUnreadable { stream, error } => {
                let mut r = concat3("Failed to read pixtool ", stream, ": ");
                r.append(error);
                r
            },
            RunProblem::WaitFailed { error } => {
                let mut r = concat3("Failed while waiting for ", operation, ": ");
                r.append(error);
                r
            },
            RunProblem::TimedOut { seconds } => {
                let mut r = concat3(operation, " timed out after ", &decimal_text(*seconds));
                r.append(" seconds and was terminated");
                r
            },
            RunProblem::StartFailed { error } => {
                let mut r = concat3("Failed while starting ", operation, ": ");
                r.append(error);
                r
            },
            RunProblem::EndedAtOnce { status } => concat3(
                operation,
                " exited immediately with ",
                status,
            ),
        }
    }
}

/// Whether `text`, in lower case, says that the process was not launched under PIX.
pub open spec fn says_not_launched(text: Seq<char>) -> bool {
    has_part(text, "pixtool17"@) || has_part(text, "not launched for gpu capture"@)
}

/// Whether a text in lower case says that the process was not launched under PIX.
pub fn names_missing_launch(text: &str) -> (r: bool)
    ensures
        r == says_not_launched(text@),
{
    let chars = chars_of(text);
    chars_have_part(&chars, &chars_of("pixtool17")) || chars_have_part(
        &chars,
        &chars_of("not launched for gpu capture"),
    )
}

/// What is said of a capture of a process that failed.
pub open spec fn gpu_capture_failure(
    process_id: nat,
    stdout: Seq<char>,
    stderr: Seq<char>,
    public_stdout: Seq<char>,
    public_stderr: Seq<char>,
) -> Seq<char> {
    if says_not_launched(unicode_lower(stdout + " "@ + stderr)) {
        "Cannot GPU-capture PID "@ + decimal(process_id)
            + ": the process was not launched under PIX (PIXTOOL17 - Process not launched for GPU Capture). PIX can only take a GPU capture of a process that PIX itself launched. Use pix_gpu_capture_launch or pix_capture_and_analyze to launch the app under PIX and capture in one step.\nstdout: "@
            + public_stdout + "\nstderr: "@ + public_stderr
    } else {
        failed_text("pixtool capture"@, public_stdout, public_stderr)
    }
}

/// The refusal of a capture of a process that failed. The first two streams are as they were
/// printed, the last two as they may be shown.
pub fn gpu_capture_failed(
    process_id: u32,
    stdout: &str,
    stderr: &str,
    public_stdout: &str,
    public_stderr: &str,
) -> (r: Failure)
    ensures
        r.message@ == gpu_capture_failure(
            process_id as nat,
            stdout@,
            stderr@,
            public_stdout@,
            public_stderr@,
        ),
{
    let combined = concat3(stdout, " ", stderr).to_lowercase();
    if names_missing_launch(&combined) {
        let mut message = concat3(
            "Cannot GPU-capture PID ",
            &decimal_text(process_id as u64),
            ": the process was not launched under PIX (PIXTOOL17 - Process not launched for GPU Capture). PIX can only take a GPU capture of a process that PIX itself launched. Use pix_gpu_capture_launch or pix_capture_and_analyze to launch the app under PIX and capture in one step.\nstdout: ",
        );
        message.append(public_stdout);
        message.append("\nstderr: ");
        message.append(public_stderr);
        return Failure::new(message);
    }
    command_failed("pixtool capture", public_stdout, public_stderr)
}

/// What is said of a launch with a capture that failed.
pub open spec fn gpu_capture_launch_failure(
    stdout: Seq<char>,
    stderr: Seq<char>,
    public_stdout: Seq<char>,
    public_stderr: Seq<char>,
) -> Seq<char> {
    if asks_for_developer_mode(unicode_lower(stdout + "\n"@ + stderr)) {
        developer_mode_guidance()
    } else {
        failed_text("pixtool capture"@, public_stdout, public_stderr)
    }
}

/// The refusal of a launch with a capture that failed. The first two streams are as they were
/// printed, the last two as they may be shown.
pub fn gpu_capture_launch_failed(
    stdout: &str,
    stderr: &str,
    public_stdout: &str,
    public_stderr: &str,
) -> (r: Failure)
    ensures
        r.message@ == gpu_capture_launch_failure(stdout@, stderr@, public_stdout@, public_stderr@),
{
    if let Err(e) = check_developer_mode(stdout, stderr) {
        return e;
    }
    command_failed("pixtool capture", public_stdout, public_stderr)
}

// ---------------------------------------------------------------------------
// Capture files
// ---------------------------------------------------------------------------

/// Refuses a path that does not name a `.wpix` file.
pub fn require_wpix_input(path: &str, resolved: bool) -> (r: Result<(), Failure>)
    ensures
        is_settled(path@) ==> r is Ok == optional_has_extension(named_file(path@), "wpix"@),
        r matches Err(e) ==> e.message@ == if resolved {
            "Capture path resolves to a file without a .wpix extension: "@ + path@
        } else {
            "Capture path must have a .wpix extension: "@ + path@
        },
{
    if !has_extension_ignore_ascii_case(path, "wpix") {
        let mut message = if resolved {
            "Capture path resolves to a file without a .wpix extension: ".to_string()
        } else {
            "Capture path must have a .wpix extension: ".to_string()
        };
        message.append(path);
        return Err(Failure::new(message));
    }
    Ok(())
}

/// Refuses a path that a new capture cannot be saved to, as far as its text tells.
pub fn check_capture_output(path: &str) -> (r: Result<(), Failure>)
    ensures
        is_blank(path@) ==> r is Err,
        r matches Err(e) ==> e.message@ == "Capture output path must not be empty"@ || e.message@
            == "Capture output path must have a .wpix extension: "@ + path@,
        is_settled(path@) ==> match r {
            Ok(_) => !is_blank(path@) && optional_has_extension(named_file(path@), "wpix"@),
            Err(e) => if is_blank(path@) || named_file(path@) is None {
                e.message@ == "Capture output path must not be empty"@
            } else {
                !optional_has_extension(named_file(path@), "wpix"@) && e.message@
                    == "Capture output path must have a .wpix extension: "@ + path@
            },
        },
{
    if blank(path) {
        return Err(Failure::of("Capture output path must not be empty"));
    }
    if file_name(path).is_none() {
        return Err(Failure::of("Capture output path must not be empty"));
    }
    if !has_extension_ignore_ascii_case(path, "wpix") {
        let mut message = "Capture output path must have a .wpix extension: ".to_string();
        message.append(path);
        return Err(Failure::new(message));
    }
    Ok(())
}

/// What is found where a new capture is to be saved.
#[derive(Debug)]
pub enum OutputProbe {
    /// Nothing, and whether its parent is a directory.
    Free { parent: String, parent_is_directory: bool },
    /// Something is there.
    Taken,
    /// It cannot be told.
    Unknown { error: String },
}

/// Accepts a place for a new capture: nothing may be there, and its parent must be a
/// directory.
pub fn accept_capture_output(path: &str, probe: &OutputProbe) -> (r: Result<(), Failure>)
    ensures
        match probe {
            OutputProbe::Taken => r is Err && r->Err_0.message@
                == "Capture output already exists; choose a new path: "@ + path@,
            OutputProbe::Unknown { error } => r is Err && r->Err_0.message@
                == "Cannot inspect capture output "@ + path@ + ": "@ + error@,
            OutputProbe::Free { parent, parent_is_directory } => if *parent_is_directory {
                r is Ok
            } else {
                r is Err && r->Err_0.message@
                    == "Capture output parent does not exist or is not a directory: "@ + parent@
            },
        },
{
    match probe {
        OutputProbe::Taken => {
            let mut message = "Capture output already exists; choose a new path: ".to_string();
            message.append(path);
            Err(Failure::new(message))
        },
        OutputProbe::Unknown { error } => {
            let mut message = concat3("Cannot inspect capture output ", path, ": ");
            message.append(error);
            Err(Failure::new(message))
        },
        OutputProbe::Free { parent, parent_is_directory } => {
            if !*parent_is_directory {
                let mut message =
                    "Capture output parent does not exist or is not a directory: ".to_string();
                message.append(parent);
                return Err(Failure::new(message));
            }
            Ok(())
        },
    }
}

/// What is found where `pixtool` should have saved a capture.
#[derive(Debug)]
pub enum SavedProbe {
    Missing { error: String },
    Found { is_file: bool, size_bytes: u64 },
}

/// What is wrong with what `pixtool` saved, if anything.
pub open spec fn saved_problem(path: Seq<char>, probe: SavedProbe) -> Option<Seq<char>> {
    match probe {
        SavedProbe::Missing { error } => Some(
            "pixtool reported success but did not create "@ + path + ": "@ + error@,
        ),
        SavedProbe::Found { is_file, size_bytes } => if is_file && size_bytes > 0 {
            None
        } else {
            Some("pixtool did not create a non-empty capture file at "@ + path)
        },
    }
}

/// Accepts what `pixtool` saved: a file that holds something.
pub fn verify_new_capture_output(path: &str, probe: &SavedProbe) -> (r: Result<(), Failure>)
    ensures
        match saved_problem(path@, *probe) {
            None => r is Ok,
            Some(problem) => r is Err && r->Err_0.message@ == problem,
        },
{
    match probe {
        SavedProbe::Missing { error } => {
            let mut message = concat3("pixtool reported success but did not create ", path, ": ");
            message.append(error);
            Err(Failure::new(message))
        },
        SavedProbe::Found { is_file, size_bytes } => {
            if !*is_file || *size_bytes == 0 {
                let mut message =
                    "pixtool did not create a non-empty capture file at ".to_string();
                message.append(path);
                return Err(Failure::new(message));
            }
            Ok(())
        },
    }
}

// ---------------------------------------------------------------------------
// Listing captures
// ---------------------------------------------------------------------------

/// A point in time: whole seconds since the Unix epoch, negative before it, and the
/// nanoseconds that follow them.
#[derive(Debug, Clone, Copy, PartialEq, Eq, Structural)]
pub struct FileTime {
    pub seconds: i64,
    pub nanos: u32,
}

impl FileTime {
    /// The whole seconds since the Unix epoch; zero for earlier times.
    pub open spec fn seconds_or_zero(self) -> u64 {
        if self.seconds < 0 {
            0
        } else {
            self.seconds as u64
        }
    }

    /// Whether this is later than `other`.
    pub open spec fn is_after(self, other: FileTime) -> bool {
        self.seconds > other.seconds || (self.seconds == other.seconds && self.nanos > other.nanos)
    }
}

pub fn seconds_or_zero(time: FileTime) -> (r: u64)
    ensures
        r == time.seconds_or_zero(),
{
    if time.seconds < 0 {
        0
    } else {
        time.seconds as u64
    }
}

/// A capture file.
#[derive(Debug)]
pub struct CaptureInfo {
    pub path: String,
    pub name: String,
    pub size_bytes: u64,
    pub modified: Option<FileTime>,
}

impl CaptureInfo {
    /// The capture as JSON.
    pub fn to_json(&self) -> (r: String)
        ensures
            r@ == "{\"modified\":"@ + (match self.modified {
                Some(time) => decimal(time.seconds_or_zero() as nat),
                None => "null"@,
            }) + ",\"name\":"@ + quoted(self.name@) + ",\"path\":"@ + quoted(self.path@)
                + ",\"size_bytes\":"@ + decimal(self.size_bytes as nat) + "}"@,
    {
        let modified = match self.modified {
            Some(time) => decimal_text(seconds_or_zero(time)),
            None => "null".to_string(),
        };
        let mut r = concat3("{\"modified\":", &modified, ",\"name\":");
        r.append(&json_text(&self.name));
        r.append(",\"path\":");
        r.append(&json_text(&self.path));
        r.append(",\"size_bytes\":");
        r.append(&decimal_text(self.size_bytes));
        r.append("}");
        r
    }
}

/// An entry of a directory.
#[derive(Debug)]
pub struct DirectoryEntry {
    pub info: CaptureInfo,
    pub is_file: bool,
}

/// Whether a time is later than another; a time that is not known is earlier than all others.
pub open spec fn later(a: Option<FileTime>, b: Option<FileTime>) -> bool {
    match (a, b) {
        (Some(x), Some(y)) => x.is_after(y),
        (Some(_), None) => true,
        _ => false,
    }
}

fn is_later(a: Option<FileTime>, b: Option<FileTime>) -> (r: bool)
    ensures
        r == later(a, b),
{
    match (a, b) {
        (Some(x), Some(y)) => x.seconds > y.seconds || (x.seconds == y.seconds && x.nanos
            > y.nanos),
        (Some(_), None) => true,
        _ => false,
    }
}

/// Whether capture `a` is listed before capture `b`: the newer first, then by name in lower
/// case, then by name.
pub open spec fn listed_before(a: CaptureInfo, b: CaptureInfo) -> bool {
    let x = unicode_lower(a.name@);
    let y = unicode_lower(b.name@);
    later(a.modified, b.modified) || (!later(b.modified, a.modified) && (text_less(x, y) || (x == y
        && text_less(a.name@, b.name@))))
}

/// Captures, the newest first.
pub struct NewestFirst;

impl Precedence for NewestFirst {
    type Item = CaptureInfo;

    open spec fn leq(a: CaptureInfo, b: CaptureInfo) -> bool {
        !listed_before(b, a)
    }

    proof fn total(a: CaptureInfo, b: CaptureInfo) {
        text_less_is_total(unicode_lower(a.name@), unicode_lower(b.name@));
        text_less_is_total(a.name@, b.name@);
    }

    proof fn transitive(a: CaptureInfo, b: CaptureInfo, c: CaptureInfo) {
        let x = unicode_lower(a.name@);
        let y = unicode_lower(b.name@);
        let z = unicode_lower(c.name@);
        text_less_is_total(x, y);
        text_less_is_total(y, z);
        text_less_is_total(x, z);
        text_less_is_total(a.name@, b.name@);
        text_less_is_total(b.name@, c.name@);
        text_less_is_total(a.name@, c.name@);
        if text_less(x, y) && text_less(y, z) {
            text_less_is_transitive(x, y, z);
        }
        if text_less(a.name@, b.name@) && text_less(b.name@, c.name@) {
            text_less_is_transitive(a.name@, b.name@, c.name@);
        }
    }

    fn may_precede(a: &CaptureInfo, b: &CaptureInfo) -> (r: bool) {
        if is_later(b.modified, a.modified) {
            return false;
        }
        if is_later(a.modified, b.modified) {
            return true;
        }
        let x = a.name.to_lowercase();
        let y = b.name.to_lowercase();
        !(comes_before(&y, &x) || (same_text(&y, &x) && comes_before(&b.name, &a.name)))
    }
}

/// The captures among the entries of a directory.
pub open spec fn captures_among(entries: Seq<DirectoryEntry>) -> Seq<CaptureInfo>
    decreases entries.len(),
{
    if entries.len() == 0 {
        seq![]
    } else {
        let before = captures_among(entries.drop_last());
        let entry = entries.last();
        if entry.is_file && names_file(entry.info.name@) && has_extension(
            entry.info.name@,
            "wpix"@,
        ) {
            before.push(entry.info)
        } else {
            before
        }
    }
}

impl PixTool {
    /// The captures among the entries of a directory, the newest first.
    pub fn list_captures(entries: Vec<DirectoryEntry>) -> (r: Result<Vec<CaptureInfo>, Failure>)
        ensures
            if entries.len() > MAX_CAPTURE_DIRECTORY_ENTRIES {
                r is Err && r->Err_0.message@
                    == "Capture directory contains more than 20000 entries; choose a narrower directory"@
            } else {
                r is Ok && r->Ok_0@ == sorted::<NewestFirst>(captures_among(entries@))
            },
    {
        if entries.len() > MAX_CAPTURE_DIRECTORY_ENTRIES {
            return Err(
                Failure::of(
                    "Capture directory contains more than 20000 entries; choose a narrower directory",
                ),
            );
        }
        let ghost all = entries@;
        let mut captures: Vec<CaptureInfo> = Vec::new();
        assert(all.take(0) =~= seq![]);
        for entry in iter: entries
            invariant
                iter.seq() == all,
                captures@ == captures_among(all.take(iter.index())),
        {
            let ghost i = iter.index();
            assert(all.take(i + 1).drop_last() =~= all.take(i));
            assert(all.take(i + 1).last() == entry);
            if entry.is_file && wpix_name(&entry.info.name) {
                captures.push(entry.info);
            }
        }
        assert(all.take(all.len() as int) =~= all);
        Ok(sort::<NewestFirst>(captures))
    }
}

fn wpix_name(name: &str) -> (r: bool)
    ensures
        r == (names_file(name@) && has_extension(name@, "wpix"@)),
{
    !name.is_empty() && !same_text(name, ".") && !same_text(name, "..") && name_has_extension(
        name,
        "wpix",
    )
}

} // verus!
