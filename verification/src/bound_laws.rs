//! What holds of numbers, of lists that are kept within a budget, and of the bounds of requests and
//! answers.

use crate::analysis::{
    counter_names, lines_are_cut, matching, wanted_counters, CountersReport, COUNTERS_DEFAULT_LIMIT,
    COUNTERS_MAX_LIMIT, MAX_INLINE_COUNTERS_JSON_BYTES, MAX_INLINE_PROCESS_OUTPUT_BYTES,
};
use crate::budget::{
    all_cut, element_sizes, fitting_items_keep_within_the_limit, kept, kept_count, some_kept_is_cut,
    total_of,
};
use crate::capture::{DEFAULT_LISTED_CAPTURES, MAX_LISTED_CAPTURES};
use crate::columns::returned_columns;
use crate::compare::{
    retry_warnings, COMPARE_DEFAULT_MAX_CHANGES, COMPARE_DEFAULT_MAX_EVENTS, COMPARE_MAX_CHANGES,
    COMPARE_MAX_EVENTS, MAX_COMPARE_WARNING_BYTES,
};
use crate::compare_answer::MAX_COMPARE_REPORT_BYTES;
use crate::completion::MAX_COMPLETION_REFERENCE_BYTES;
use crate::counters::{
    size_problem, MAX_COUNTER_EXPORT_BYTES, MAX_COUNTER_EXPORT_ROWS, MAX_COUNTER_RESULT_BYTES,
};
use crate::diagnostics::{
    BoundedOutput, MAX_COUNTER_NAME_BYTES, MAX_INLINE_DIAGNOSTICS_JSON_BYTES,
    MAX_PROCESS_OUTPUT_BYTES,
};
use crate::events::{
    inspection_problem, least, EVENT_LIST_MAX_LIMIT, MAX_ANALYSIS_CSV_BYTES,
    MAX_ANALYZE_EVENTS_JSON_BYTES, MAX_ANALYZE_PREVIEW_ROW_BYTES, MAX_INLINE_EVENT_PAYLOAD_BYTES,
};
use crate::exports::header_exceeds;
use crate::files::file_problem;
use crate::finite::{is_finite, is_zero, order_key};
use crate::frame_answer::MAX_INLINE_ANALYSIS_PAYLOAD_BYTES;
use crate::images::{divided_up, scaled_length};
use crate::numbers::{
    all_digits, decimal, decimal_reads_back, digit_value, number, signed, signed_decimal, unsigned,
};
use crate::pixtool::{
    MAX_CAPTURE_DIRECTORY_ENTRIES, PIXTOOL_LAUNCH_TIMEOUT_SECONDS,
    PIXTOOL_OPERATION_TIMEOUT_SECONDS, PIXTOOL_TIMING_GRACE_MILLIS,
};
use crate::process::{LAUNCH_PROBE_MILLIS, PIXTOOL_QUEUE_TIMEOUT_SECONDS};
use crate::prompts::{
    capture_address, compare_problem, distinct_problem, identity_key, profile_problem,
    MAX_COMPLETION_QUERY_BYTES, MAX_COMPLETION_VALUES, MAX_PROMPT_PATH_BYTES, MAX_PROMPT_TEXT_BYTES,
};
use crate::resources::{MAX_CAPTURE_ID_BYTES, RESOURCE_CAPTURE_LIMIT};
use crate::screenshot::{
    MAX_EMBEDDED_SCREENSHOT_BYTES, MAX_SCREENSHOT_DECODE_BYTES, MAX_SCREENSHOT_SOURCE_DIMENSION,
    SCREENSHOT_DEFAULT_DIMENSION, SCREENSHOT_MAX_DIMENSION,
};
use crate::server::RESOURCE_PAGE_SIZE;
use crate::tables::{fields_len, MAX_ANALYSIS_CSV_ROWS};
use crate::text::{lines, texts, trimmed, utf8_len};
use crate::utf8::{cut, is_cut};
use vstd::prelude::*;
use vstd::string::*;

verus! {

// ---------------------------------------------------------------------------
// Numbers
// ---------------------------------------------------------------------------

/// The digits of a number count by their places: those behind it move a digit up.
pub proof fn digits_count_by_their_places(s: Seq<char>, c: char, radix: nat)
    ensures
        number(s.push(c), radix) == number(s, radix) * radix + (match digit_value(c, radix) {
            Some(value) => value,
            None => 0,
        }),
        number(Seq::empty(), radix) == 0,
        number(seq!['0'] + s, radix) == number(s, radix),
    decreases s.len(),
{
    assert(s.push(c).drop_last() =~= s);
    let zero = seq!['0'] + s;
    assert(digit_value('0', radix) is Some ==> digit_value('0', radix)->0 == 0);
    if s.len() == 0 {
        assert(zero.drop_last() =~= Seq::<char>::empty());
        assert(zero.last() == '0');
        assert(number(Seq::<char>::empty(), radix) == 0);
        assert(0 * radix == 0) by (nonlinear_arith);
    } else {
        digits_count_by_their_places(s.drop_last(), c, radix);
        assert(zero.drop_last() =~= seq!['0'] + s.drop_last());
        assert(zero.last() == s.last());
    }
}

/// A digit counts for its place among the digits, and a letter for its place in the alphabet behind
/// them, in either case; what counts for as much as the base or more is no digit.
pub proof fn digits_have_their_values(c: char, radix: nat)
    requires
        radix <= 36,
    ensures
        '0' <= c <= '9' ==> (digit_value(c, radix) == if c as int - '0' as int >= radix {
            None
        } else {
            Some((c as int - '0' as int) as nat)
        }),
        'a' <= c <= 'z' ==> (digit_value(c, radix) == if c as int - 'a' as int + 10 >= radix {
            None
        } else {
            Some((c as int - 'a' as int + 10) as nat)
        }),
        'A' <= c <= 'Z' ==> (digit_value(c, radix) == if c as int - 'A' as int + 10 >= radix {
            None
        } else {
            Some((c as int - 'A' as int + 10) as nat)
        }),
        !('0' <= c <= '9') && !('a' <= c <= 'z') && !('A' <= c <= 'Z') ==> digit_value(c, radix)
            is None,
{
}

/// A number is read from one digit or more, with or without a plus sign before them, and only up to
/// the largest that is allowed; nothing else is a number.
pub proof fn numbers_are_read_from_digits(digits: Seq<char>, radix: nat, max: nat)
    requires
        all_digits(digits, radix),
        radix <= 36,
    ensures
        unsigned(digits, radix, max) == if number(digits, radix) <= max {
            Some(number(digits, radix))
        } else {
            None
        },
        unsigned(seq!['+'] + digits, radix, max) == unsigned(digits, radix, max),
        unsigned(Seq::empty(), radix, max) is None,
        unsigned(seq!['+'], radix, max) is None,
        unsigned(seq!['-'] + digits, radix, max) is None,
        unsigned(digits + seq![' '], radix, max) is None,
{
    assert(digit_value(digits[0], radix) is Some);
    assert(digits[0] != '+');
    let plus = seq!['+'] + digits;
    assert(plus.subrange(1, plus.len() as int) =~= digits);
    assert(seq!['+'].subrange(1, 1) =~= Seq::<char>::empty());
    let minus = seq!['-'] + digits;
    assert(minus[0] == '-');
    assert(digit_value(minus[0], radix) is None);
    let spaced = digits + seq![' '];
    assert(spaced[0] == digits[0]);
    assert(spaced[digits.len() as int] == ' ');
    assert(digit_value(spaced[digits.len() as int], radix) is None);
}

/// An integer that is written with its sign is read back as itself.
pub proof fn signed_numbers_are_read_back(n: int)
    requires
        i64::MIN <= n <= i64::MAX,
    ensures
        signed(signed_decimal(n)) == Some(n),
{
    if n < 0 {
        let m = (-n) as nat;
        let digits = decimal(m);
        let s = seq!['-'] + digits;
        decimal_reads_back(m, m);
        assert(s.subrange(1, s.len() as int) =~= digits);
        assert(digits.contains(digits[0]));
        assert(digits[0] != '+');
    } else {
        decimal_reads_back(n as nat, i64::MAX as nat);
        let digits = decimal(n as nat);
        assert(digit_value(digits[0], 10) is Some);
        assert(digits[0] != '-');
    }
}

/// A double is finite where the bits of its exponent are not all set, and zero where no bit but the
/// sign is.
pub proof fn finite_numbers_are_told_by_their_exponent(bits: u64)
    ensures
        is_finite(bits) <==> bits & 0x7FF0_0000_0000_0000u64 != 0x7FF0_0000_0000_0000u64,
        is_zero(bits) <==> bits & 0x7FFF_FFFF_FFFF_FFFFu64 == 0,
{
    assert(bits < 0x8000_0000_0000_0000u64 ==> (bits & 0x7FF0_0000_0000_0000u64
        != 0x7FF0_0000_0000_0000u64 <==> bits < 0x7FF0_0000_0000_0000u64)) by (bit_vector);
    assert(bits >= 0x8000_0000_0000_0000u64 ==> (bits & 0x7FF0_0000_0000_0000u64
        != 0x7FF0_0000_0000_0000u64 <==> bits < 0xFFF0_0000_0000_0000u64)) by (bit_vector);
    assert(bits & 0x7FFF_FFFF_FFFF_FFFFu64 == 0 <==> bits == 0 || bits == 0x8000_0000_0000_0000u64)
        by (bit_vector);
}

/// Durations are ordered as numbers are: of two that are not negative the one with the larger bits is
/// larger, of two negative ones the one with the smaller, and a negative one is below one that is
/// not.
pub proof fn durations_are_ordered_by_value(a: u64, b: u64)
    ensures
        a < 0x8000_0000_0000_0000 && b < 0x8000_0000_0000_0000 ==> (order_key(a) < order_key(b)
            <==> a < b),
        a >= 0x8000_0000_0000_0000 && b >= 0x8000_0000_0000_0000 ==> (order_key(a) < order_key(b)
            <==> a > b),
        a >= 0x8000_0000_0000_0000 && b < 0x8000_0000_0000_0000 ==> order_key(a) < order_key(b),
        order_key(a) == order_key(b) ==> a == b,
{
}

/// The smaller of two numbers is one of them and above neither.
pub proof fn the_least_is_one_of_both(a: nat, b: nat)
    ensures
        least(a, b) == a || least(a, b) == b,
        least(a, b) <= a,
        least(a, b) <= b,
{
}

/// A division that is rounded up gives the least number that reaches the dividend.
pub proof fn divisions_are_rounded_up(a: nat, b: nat)
    requires
        b > 0,
    ensures
        divided_up(a, b) * b >= a,
        a > 0 ==> (divided_up(a, b) - 1) * b < a,
        a == 0 ==> divided_up(a, b) == 0,
{
    let (x, y) = (a as int, b as int);
    let q = (x + y - 1) / y;
    assert(q * y >= x && q >= 0) by (nonlinear_arith)
        requires
            y > 0,
            x >= 0,
            q == (x + y - 1) / y,
    ;
    assert(x > 0 ==> (q - 1) * y < x) by (nonlinear_arith)
        requires
            y > 0,
            x >= 0,
            q == (x + y - 1) / y,
    ;
    if x == 0 {
        assert(q == 0) by (nonlinear_arith)
            requires
                y > 0,
                x == 0,
                q == (x + y - 1) / y,
        ;
    }
}

/// A side is scaled in proportion, to within half a pixel, and the longest becomes the side that was
/// asked for.
pub proof fn sides_are_scaled_in_proportion(length: nat, side: nat, longest: nat)
    requires
        longest > 0,
    ensures
        scaled_length(length, side, longest) >= 1,
        scaled_length(length, side, longest) > 1 ==> 2 * scaled_length(length, side, longest)
            * longest < 2 * length * side + longest && 2 * length * side <= 2 * scaled_length(
            length,
            side,
            longest,
        ) * longest + longest,
        side > 0 ==> scaled_length(longest, side, longest) == side,
{
    let p = 2 * length * side + longest - 1;
    let l = 2 * longest as int;
    let q = p / l;
    assert(2 * length * side >= 0) by (nonlinear_arith);
    assert(q * l <= p < q * l + l) by (nonlinear_arith)
        requires
            l > 0,
            q == p / l,
    ;
    assert(q * l == 2 * q * longest) by (nonlinear_arith)
        requires
            l == 2 * longest,
    ;
    if side > 0 {
        let p2 = 2 * longest * side + longest - 1;
        assert(p2 / l == side) by (nonlinear_arith)
            requires
                l == 2 * longest,
                longest > 0,
                p2 == 2 * longest * side + longest - 1,
        ;
    }
}

// ---------------------------------------------------------------------------
// Lists within a budget
// ---------------------------------------------------------------------------

/// Of a list within a budget the first items are kept, each cut to its bound; all of them where they
/// fit, and otherwise as many as do.
pub proof fn budgets_keep_the_first_items(
    items: Seq<Seq<char>>,
    max_bytes: nat,
    limit: nat,
    i: int,
)
    requires
        2 <= limit,
    ensures
        ({
            let found = kept(items, max_bytes, limit);
            let sizes = element_sizes(all_cut(items, max_bytes));
            &&& found.len() <= items.len()
            &&& 0 <= i < found.len() ==> found[i] == cut(items[i], max_bytes)
            &&& 2 + total_of(sizes, found.len()) <= limit
            &&& found.len() < items.len() ==> 2 + total_of(sizes, found.len() + 1) > limit
            &&& !some_kept_is_cut(items, max_bytes, limit) && found.len() == items.len()
                ==> found == items
            &&& 0 <= i < found.len() && utf8_len(items[i]) > max_bytes ==> some_kept_is_cut(
                items,
                max_bytes,
                limit,
            )
            &&& found == items && (forall|k: int|
                0 <= k < items.len() ==> utf8_len(#[trigger] items[k]) <= max_bytes)
                ==> !some_kept_is_cut(items, max_bytes, limit)
            &&& some_kept_is_cut(items, max_bytes, limit) ==> exists|k: int|
                0 <= k < found.len() && utf8_len(#[trigger] items[k]) > max_bytes
        }),
{
    let found = kept(items, max_bytes, limit);
    let sizes = element_sizes(all_cut(items, max_bytes));
    fitting_items_keep_within_the_limit(sizes, 2, limit);
    assert(found.len() == kept_count(items, max_bytes, limit));
    if !some_kept_is_cut(items, max_bytes, limit) && found.len() == items.len() {
        assert forall|k: int| 0 <= k < found.len() implies #[trigger] found[k] == items[k] by {
            assert(!is_cut(items[k], max_bytes));
        }
        assert(found =~= items);
    }
    if 0 <= i < found.len() && utf8_len(items[i]) > max_bytes {
        assert(is_cut(items[i], max_bytes));
    }
    if some_kept_is_cut(items, max_bytes, limit) {
        let k = choose|k: int|
            0 <= k < kept_count(items, max_bytes, limit) && is_cut(#[trigger] items[k], max_bytes);
        assert(utf8_len(items[k]) > max_bytes);
    }
}

/// Diagnostic lines are said to be cut exactly where not all of them are returned as they are.
pub proof fn cut_lines_are_said_to_be(items: Seq<Seq<char>>)
    ensures
        !lines_are_cut(items) ==> kept(items, 16_384, 196_608) == items,
        kept(items, 16_384, 196_608).len() < items.len() ==> lines_are_cut(items),
        kept(items, 16_384, 196_608) == items && (forall|k: int|
            0 <= k < items.len() ==> utf8_len(#[trigger] items[k]) <= 16_384) ==> !lines_are_cut(
            items,
        ),
{
    budgets_keep_the_first_items(items, 16_384, 196_608, 0);
}

/// As many counters are listed as were asked for, 200 where nothing was, 2000 at most, or as many as
/// match; fewer only where one more would go beyond the budget.
pub proof fn counters_are_listed_up_to_the_number_asked_for(
    report: CountersReport,
    capture_path: Seq<char>,
    stdout: Seq<char>,
    filter: Option<Seq<char>>,
    limit: Option<usize>,
)
    requires
        report.lists(capture_path, stdout, filter, limit),
    ensures
        ({
            let found = matching(counter_names(lines(stdout)), filter);
            let asked = match limit {
                Some(n) => n as nat,
                None => 200,
            };
            let bound = if asked < 2000 {
                asked
            } else {
                2000
            };
            let wanted = if found.len() < bound {
                found.len()
            } else {
                bound
            };
            &&& report.counters.len() <= wanted
            &&& report.counters.len() < wanted ==> 2 + total_of(
                element_sizes(all_cut(found.take(wanted as int), 16_384)),
                (report.counters.len() + 1) as nat,
            ) > 786_432
            &&& report.counters.len() < found.len() ==> report.truncated
            &&& forall|i: int|
                0 <= i < report.counters.len() ==> #[trigger] texts(report.counters@)[i] == cut(
                    found[i],
                    16_384,
                )
        }),
{
    let found = matching(counter_names(lines(stdout)), filter);
    let wanted = wanted_counters(stdout, filter, limit);
    assert(texts(report.counters@).len() == report.counters.len());
    budgets_keep_the_first_items(wanted, 16_384, 786_432, 0);
    assert forall|i: int| 0 <= i < report.counters.len() implies #[trigger] texts(
        report.counters@,
    )[i] == cut(found[i], 16_384) by {
        budgets_keep_the_first_items(wanted, 16_384, 786_432, i);
    }
}

/// What is kept of a stream is its beginning: all of it up to a mebibyte, and no more.
pub proof fn streams_are_kept_from_their_beginning(output: BoundedOutput, all: Seq<u8>)
    requires
        output.holds(all),
    ensures
        output.retained@ == all.take(output.retained@.len() as int),
        all.len() <= 1024 * 1024 ==> output.retained@ == all,
        all.len() > 1024 * 1024 ==> output.retained@.len() == 1024 * 1024,
        output.truncated <==> output.retained@.len() < all.len(),
{
    assert(all.take(all.len() as int) =~= all);
}

/// At most fifty columns are returned, the first of them.
pub proof fn fifty_columns_are_returned(columns: Seq<Seq<char>>)
    ensures
        columns.len() <= 50 ==> returned_columns(columns) == columns,
        columns.len() > 50 ==> returned_columns(columns) == columns.take(50),
{
    assert(columns.take(columns.len() as int) =~= columns);
}

/// A retry without counters is warned of, and before that every export with counters that failed,
/// with its error.
pub proof fn failed_counter_exports_are_warned_of(a: Option<Seq<char>>, b: Option<Seq<char>>)
    ensures
        retry_warnings(a, b).len() == 1 + (if a is Some {
            1int
        } else {
            0int
        }) + (if b is Some {
            1int
        } else {
            0int
        }),
        a matches Some(error) ==> retry_warnings(a, b)[0] == cut(
            "Baseline counter export failed"@ + ": "@ + error,
            8_192,
        ),
        b matches Some(error) ==> retry_warnings(a, b)[retry_warnings(a, b).len() - 2] == cut(
            "Comparison counter export failed"@ + ": "@ + error,
            8_192,
        ),
{
}

// ---------------------------------------------------------------------------
// Bounds of requests
// ---------------------------------------------------------------------------

/// A file is read exactly where it is one, holds something and is not too large.
pub proof fn files_are_read_within_their_bound(
    label: Seq<char>,
    path: Seq<char>,
    is_file: bool,
    size_bytes: nat,
    max_bytes: nat,
)
    ensures
        file_problem(label, path, is_file, size_bytes, max_bytes) is None <==> is_file && 0
            < size_bytes <= max_bytes,
{
}

/// Counter data is returned up to eight mebibytes.
pub proof fn counter_data_is_bounded(size: nat)
    ensures
        size_problem(size) is None <==> size <= 8 * 1024 * 1024,
{
}

/// A saved event list is checked only where it holds something and is not larger than 128 mebibytes.
pub proof fn saved_lists_are_bounded(bytes: Seq<u8>, path: Seq<char>)
    ensures
        bytes.len() == 0 ==> inspection_problem(bytes, path) is Some,
        bytes.len() > 128 * 1024 * 1024 ==> inspection_problem(bytes, path) is Some,
{
}

/// A header is compared where it has at most 4096 columns of at most 4096 bytes each, and at most 512
/// kibibytes in all.
pub proof fn compared_headers_are_bounded(headers: Seq<Seq<char>>)
    ensures
        header_exceeds(headers) <==> headers.len() > 4096 || fields_len(headers) > 512 * 1024
            || exists|i: int| 0 <= i < headers.len() && utf8_len(#[trigger] headers[i]) > 4096,
{
}

/// The address of an argument is made of its text without the white space around it, which must hold
/// something and be within a kibibyte.
pub proof fn arguments_are_bounded(id: Seq<char>)
    ensures
        utf8_len(id) > 1024 ==> capture_address(id) is Err,
        trimmed(id).len() == 0 ==> capture_address(id) is Err,
        capture_address(id) matches Ok(uri) ==> uri == "capture://"@
            + crate::resources::percent_encoded(trimmed(id)),
        utf8_len(id) <= 1024 && trimmed(id).len() > 0 && crate::resources::resource_at(
            "capture://"@ + crate::resources::percent_encoded(trimmed(id)),
        ) is Err ==> capture_address(id) == Err::<Seq<char>, Seq<char>>(
            "Invalid capture_id: "@ + trimmed(id),
        ),
        utf8_len(id) <= 1024 && trimmed(id).len() > 0 && crate::resources::resource_at(
            "capture://"@ + crate::resources::percent_encoded(trimmed(id)),
        ) is Ok ==> capture_address(id) is Ok,
{
}

/// Prompts are accepted for captures with an address, two different ones where two are compared, and
/// for a focus within its bound.
pub proof fn prompts_are_accepted_for_captures(
    a: Seq<char>,
    b: Seq<char>,
    focus: Option<Seq<char>>,
)
    ensures
        profile_problem(a, focus) is None <==> capture_address(a) is Ok && (
        focus matches Some(text) ==> utf8_len(text) <= 8192),
        compare_problem(a, b, focus) is None <==> capture_address(a) is Ok && capture_address(b)
            is Ok && identity_key(a) != identity_key(b) && (focus matches Some(text) ==> utf8_len(
            text,
        ) <= 8192),
        distinct_problem(a, b) is Some <==> distinct_problem(b, a) is Some,
{
}

/// The bounds that are promised.
pub proof fn bounds_are_those_promised()
    ensures
        COUNTERS_DEFAULT_LIMIT == 200 && COUNTERS_MAX_LIMIT == 10 * COUNTERS_DEFAULT_LIMIT,
        DEFAULT_LISTED_CAPTURES == 100 && MAX_LISTED_CAPTURES == 5 * DEFAULT_LISTED_CAPTURES,
        COMPARE_DEFAULT_MAX_EVENTS == 20_000 && COMPARE_MAX_EVENTS == 50_000,
        COMPARE_DEFAULT_MAX_CHANGES == 20 && COMPARE_MAX_CHANGES == 50,
        MAX_COMPARE_REPORT_BYTES == 1024 * 1024,
        MAX_INLINE_EVENT_PAYLOAD_BYTES == 1024 * 1024,
        MAX_INLINE_ANALYSIS_PAYLOAD_BYTES == 1024 * 1024,
        MAX_PROCESS_OUTPUT_BYTES == 1024 * 1024,
        MAX_INLINE_COUNTERS_JSON_BYTES == 768 * 1024,
        MAX_INLINE_DIAGNOSTICS_JSON_BYTES == 192 * 1024,
        MAX_INLINE_PROCESS_OUTPUT_BYTES == 32 * 1024,
        MAX_ANALYZE_EVENTS_JSON_BYTES == 512 * 1024,
        MAX_ANALYZE_PREVIEW_ROW_BYTES == 128 * 1024,
        MAX_COUNTER_NAME_BYTES == 16 * 1024,
        MAX_COMPARE_WARNING_BYTES == 8 * 1024,
        MAX_ANALYSIS_CSV_BYTES == 128 * 1024 * 1024,
        MAX_ANALYSIS_CSV_ROWS == 250_000,
        MAX_COUNTER_EXPORT_BYTES == 8 * 1024 * 1024,
        MAX_COUNTER_EXPORT_ROWS == 50_000,
        MAX_COUNTER_RESULT_BYTES == 8 * 1024 * 1024,
        MAX_EMBEDDED_SCREENSHOT_BYTES == 8 * 1024 * 1024,
        MAX_SCREENSHOT_DECODE_BYTES == 256 * 1024 * 1024,
        MAX_SCREENSHOT_SOURCE_DIMENSION == 16 * 1024,
        SCREENSHOT_MAX_DIMENSION == 4 * 1024,
        SCREENSHOT_DEFAULT_DIMENSION == 1280,
        EVENT_LIST_MAX_LIMIT == 2000,
        MAX_CAPTURE_DIRECTORY_ENTRIES == 20_000,
        RESOURCE_CAPTURE_LIMIT == 500 && RESOURCE_PAGE_SIZE == 100,
        MAX_CAPTURE_ID_BYTES == 1024,
        MAX_COMPLETION_REFERENCE_BYTES == 128,
        MAX_COMPLETION_QUERY_BYTES == 256,
        MAX_COMPLETION_VALUES == 100,
        MAX_PROMPT_PATH_BYTES == 32 * 1024,
        MAX_PROMPT_TEXT_BYTES == 8 * 1024,
        PIXTOOL_OPERATION_TIMEOUT_SECONDS == 10 * 60,
        PIXTOOL_LAUNCH_TIMEOUT_SECONDS == 30 * 60,
        PIXTOOL_TIMING_GRACE_MILLIS == 30 * 1000,
        PIXTOOL_QUEUE_TIMEOUT_SECONDS == 30,
        LAUNCH_PROBE_MILLIS == 250,
{
}

/// A negative integer is a minus sign and digits, down to the smallest of 64 bits; anything else
/// behind the sign is no integer.
pub proof fn negative_integers_are_a_sign_and_digits(s: Seq<char>)
    ensures
        signed(seq!['-'] + s) is Some <==> all_digits(s, 10) && number(s, 10)
            <= 0x8000_0000_0000_0000,
        signed(seq!['-'] + s) matches Some(n) ==> n == -(number(s, 10) as int),
        signed(Seq::empty()) is None,
{
    let whole = seq!['-'] + s;
    assert(whole[0] == '-');
    assert(whole.subrange(1, whole.len() as int) =~= s);
}

/// An integer without a sign, or with a plus sign, is one up to the largest of 64 bits.
pub proof fn positive_integers_are_digits(digits: Seq<char>)
    requires
        all_digits(digits, 10),
    ensures
        signed(digits) is Some <==> number(digits, 10) <= 0x7FFF_FFFF_FFFF_FFFF,
        signed(digits) matches Some(n) ==> n == number(digits, 10),
        signed(seq!['+'] + digits) == signed(digits),
{
    assert(digit_value(digits[0], 10) is Some);
    assert(digits[0] != '-');
    numbers_are_read_from_digits(digits, 10, i64::MAX as nat);
    assert((seq!['+'] + digits)[0] == '+');
}

} // verus!
