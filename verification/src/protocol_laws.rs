//! What holds of the protocol layer: progress, cursors, output paths, the state of PIX, and the
//! sizes of answers.

use crate::analysis::CommandOutput;
use crate::capture::{shows, CaptureEntry};
use crate::compare::{
    structure_of, timing_of, CompareReport, EventExports, EventStructureComparison,
    GpuTimingComparison,
};
use crate::compare_answer::Kept;
use crate::compare_plan::ComparisonPlan;
use crate::events::{EventListReport, Page, ResponseFormat};
use crate::finite::is_finite;
use crate::frame::Summary;
use crate::images::{block_pixels, embedding_of, interleaved, plane, Embedding};
use crate::json::{all_escaped, escaped, quoted};
use crate::numbers::decimal;
use crate::paths::is_settled;
use crate::pixtool::{Arg, CaptureInfo};
use crate::plans::{answers_with, capture_run_problem, page_limit, CaptureKind};
use crate::resources::entry_shows;
use crate::screenshot::{
    needs_replay, png_path, resource_options, screenshot_problem, ScreenshotRequest,
};
use crate::server::{
    admitted, asks_for_output_path, cursor_offset, elicitation, elicited_path, is_too_soon,
    page_end, scale, ArgumentValue, ElicitationReply, Offer,
};
use crate::status::{
    advertised_commands, advertises, command_words, directory_of, if_advertised, is_command_char,
    is_directory_settled, is_pixtool_help, is_version, suggestions_for,
};
use crate::text::{
    ends_with, is_blank, is_digit, lemma_first_at_is, lower_ascii, same_ignoring_case, starts_with,
    texts,
};
use crate::text_laws::{found_parts_are_there, parts_are_found_anywhere};
use vstd::prelude::*;
use vstd::string::*;

verus! {

// ---------------------------------------------------------------------------
// Progress
// ---------------------------------------------------------------------------

/// Progress is compared as numbers are: of two that are not negative the one with the larger bits is
/// larger, of two negative ones the one with the smaller, a negative one is below one that is not,
/// and both zeros are equal.
pub proof fn progress_is_compared_by_value(a: u64, b: u64)
    ensures
        a < 0x8000_0000_0000_0000 && b < 0x8000_0000_0000_0000 ==> (scale(a) < scale(b) <==> a < b),
        a >= 0x8000_0000_0000_0000 && b >= 0x8000_0000_0000_0000 ==> (scale(a) < scale(b) <==> a
            > b),
        a > 0x8000_0000_0000_0000 && b < 0x8000_0000_0000_0000 ==> scale(a) < scale(b),
        scale(0) == scale(0x8000_0000_0000_0000),
{
}

/// A notification comes too soon within a second of the last, to the nanosecond, and before it; the
/// first never does.
pub proof fn notifications_are_a_second_apart(last: u64, now: u64)
    ensures
        is_too_soon(Some(last), now) <==> (now as int) < last + 1_000_000_000,
        !is_too_soon(None, now),
{
}

/// What is finite, goes beyond the last and does not come too soon, or is forced, is sent; nothing
/// else is.
pub proof fn offers_that_may_be_sent_are_sent(
    last_progress: u64,
    last_sent: Option<u64>,
    offer: Offer,
    rest: Seq<Offer>,
)
    ensures
        is_finite(offer.progress) && scale(offer.progress) > scale(last_progress) && (offer.force
            || !is_too_soon(last_sent, offer.now)) ==> admitted(
            last_progress,
            last_sent,
            seq![offer] + rest,
        ) == seq![offer] + admitted(offer.progress, Some(offer.now), rest),
        !is_finite(offer.progress) || scale(offer.progress) <= scale(last_progress) || (
        !offer.force && is_too_soon(last_sent, offer.now)) ==> admitted(
            last_progress,
            last_sent,
            seq![offer] + rest,
        ) == admitted(last_progress, last_sent, rest),
{
    let all = seq![offer] + rest;
    assert(all.subrange(1, all.len() as int) =~= rest);
}

// ---------------------------------------------------------------------------
// Cursors
// ---------------------------------------------------------------------------

/// A page of the catalog has a hundred resources, but for the last, which has what is left.
pub proof fn pages_have_a_hundred_resources(offset: nat, total: nat)
    requires
        offset <= total,
    ensures
        offset + 100 <= total ==> page_end(offset, total) == offset + 100,
        offset + 100 > total ==> page_end(offset, total) == total,
{
}

/// A cursor is accepted only where it stands for the beginning of a page behind the first.
pub proof fn accepted_cursors_begin_a_page(cursor: Seq<char>, generation: nat, total: nat)
    ensures
        cursor_offset(cursor, generation, total) matches Ok(offset) ==> 0 < offset < total && offset
            % 100 == 0 && starts_with(cursor, "pix-captures-v2:"@),
{
}

// ---------------------------------------------------------------------------
// Output paths
// ---------------------------------------------------------------------------

/// An output path comes only of a form that was sent back with one that is not blank, and is then
/// what was sent.
pub proof fn only_given_paths_are_used(reply: ElicitationReply)
    ensures
        elicited_path(reply) is Ok <==> (reply matches ElicitationReply::Accepted { output_path }
            && !is_blank(output_path@)),
        reply matches ElicitationReply::Accepted { output_path } ==> (!is_blank(output_path@)
            ==> elicited_path(reply) == Ok::<Seq<char>, Seq<char>>(output_path@)),
{
}

/// A path is asked for only where the call lacks it and has what it needs besides.
pub proof fn paths_are_asked_for_where_they_lack(
    required: ArgumentValue,
    output_path: ArgumentValue,
)
    ensures
        asks_for_output_path(required, output_path) ==> (output_path is Missing || output_path
            is Null) && !(required is Missing) && !(required is Null) && !(required is Other),
        output_path is Text ==> !asks_for_output_path(required, output_path),
        required is Number && (output_path is Missing || output_path is Null)
            ==> asks_for_output_path(required, output_path),
        required matches ArgumentValue::Text(text) ==> (asks_for_output_path(
            required,
            output_path,
        ) <==> !is_blank(text@) && (output_path is Missing || output_path is Null)),
{
}

// ---------------------------------------------------------------------------
// The state of PIX
// ---------------------------------------------------------------------------

/// The words of a help text are made of letters, digits and hyphens, and end at anything else.
pub proof fn command_words_end_at_other_characters(word: Seq<char>, c: char, rest: Seq<char>)
    requires
        forall|i: int| 0 <= i < word.len() ==> is_command_char(#[trigger] word[i]),
    ensures
        command_words(word) == seq![word],
        !is_command_char(c) ==> command_words(word + seq![c] + rest) == seq![word] + command_words(
            rest,
        ),
    decreases word.len() + rest.len(),
{
    if word.len() > 0 {
        let head = word.drop_last();
        assert forall|i: int| 0 <= i < head.len() implies is_command_char(#[trigger] head[i]) by {
            assert(head[i] == word[i]);
        }
        command_words_end_at_other_characters(head, c, Seq::empty());
        assert(is_command_char(word[word.len() - 1]));
        assert(command_words(word) =~= seq![head.push(word.last())]);
        assert(head.push(word.last()) =~= word);
    } else {
        assert(word =~= Seq::<char>::empty());
    }
    if !is_command_char(c) {
        let s = word + seq![c] + rest;
        if rest.len() == 0 {
            assert(s.last() == c);
            assert(s.drop_last() =~= word);
            assert(rest =~= Seq::<char>::empty());
            assert(command_words(s) =~= seq![word] + command_words(rest));
        } else {
            let short = rest.drop_last();
            command_words_end_at_other_characters(word, c, short);
            assert(s.last() == rest.last());
            assert(s.drop_last() =~= word + seq![c] + short);
            let before = command_words(short);
            lemma_words_are_some(short);
            assert((seq![word] + before).drop_last() =~= seq![word] + before.drop_last());
            assert((seq![word] + before).last() == before.last());
            assert(command_words(s) =~= seq![word] + command_words(rest));
        }
    }
}

proof fn lemma_words_are_some(s: Seq<char>)
    ensures
        command_words(s).len() > 0,
    decreases s.len(),
{
    if s.len() > 0 {
        lemma_words_are_some(s.drop_last());
    }
}

/// A command is advertised where it stands in a help text as a whole word, in any case; what follows
/// another word is advertised by what follows.
pub proof fn commands_are_advertised_as_whole_words(
    word: Seq<char>,
    c: char,
    rest: Seq<char>,
    expected: Seq<char>,
)
    requires
        forall|i: int| 0 <= i < word.len() ==> is_command_char(#[trigger] word[i]),
        !is_command_char(c),
    ensures
        advertises(word + seq![c] + rest, expected) <==> lower_ascii(word) == lower_ascii(expected)
            || advertises(rest, expected),
        advertises(word, expected) <==> lower_ascii(word) == lower_ascii(expected),
        is_command_char('-') && is_command_char('a') && is_command_char('Z') && is_command_char('7'),
        !is_command_char(' ') && !is_command_char('\n') && !is_command_char(':')
            && !is_command_char('_'),
{
    command_words_end_at_other_characters(word, c, rest);
    let whole = command_words(word + seq![c] + rest);
    let tail = command_words(rest);
    if advertises(word + seq![c] + rest, expected) {
        let i = choose|i: int|
            0 <= i < whole.len() && same_ignoring_case(#[trigger] whole[i], expected);
        if i > 0 {
            assert(tail[i - 1] == whole[i]);
        }
    }
    if advertises(rest, expected) {
        let i = choose|i: int|
            0 <= i < tail.len() && same_ignoring_case(#[trigger] tail[i], expected);
        assert(whole[i + 1] == tail[i]);
    }
    if lower_ascii(word) == lower_ascii(expected) {
        assert(whole[0] == word);
        assert(command_words(word)[0] == word);
    }
    if advertises(word, expected) {
        let i = choose|i: int|
            0 <= i < command_words(word).len() && same_ignoring_case(
                #[trigger] command_words(word)[i],
                expected,
            );
        assert(command_words(word)[i] == word);
    }
}

/// The detected commands are the known commands that are advertised.
pub proof fn detected_commands_are_advertised(help: Seq<char>, command: Seq<char>)
    ensures
        advertised_commands(help).contains(command) ==> advertises(help, command),
        advertises(help, command) && (command == "take-capture"@ || command
            == "programmatic-capture"@ || command == "take-new-timing-capture"@ || command
            == "save-event-list"@ || command == "save-resource"@ || command == "save-screenshot"@
            || command == "save-high-frequency-counters"@ || command == "collect-occupancy"@
            || command == "upgrade-gpu-capture"@) ==> advertised_commands(help).contains(command),
{
    let a = if_advertised(help, "take-capture"@);
    let b = a + if_advertised(help, "programmatic-capture"@);
    let c = b + if_advertised(help, "take-new-timing-capture"@);
    let d = c + if_advertised(help, "save-event-list"@);
    let e = d + if_advertised(help, "save-resource"@);
    let f = e + if_advertised(help, "save-screenshot"@);
    let g = f + if_advertised(help, "save-high-frequency-counters"@);
    let h = g + if_advertised(help, "collect-occupancy"@);
    lemma_one_advertised(help, "take-capture"@, command);
    lemma_one_advertised(help, "programmatic-capture"@, command);
    lemma_one_advertised(help, "take-new-timing-capture"@, command);
    lemma_one_advertised(help, "save-event-list"@, command);
    lemma_one_advertised(help, "save-resource"@, command);
    lemma_one_advertised(help, "save-screenshot"@, command);
    lemma_one_advertised(help, "save-high-frequency-counters"@, command);
    lemma_one_advertised(help, "collect-occupancy"@, command);
    lemma_one_advertised(help, "upgrade-gpu-capture"@, command);
    lemma_either_contains(a, if_advertised(help, "programmatic-capture"@), command);
    lemma_either_contains(b, if_advertised(help, "take-new-timing-capture"@), command);
    lemma_either_contains(c, if_advertised(help, "save-event-list"@), command);
    lemma_either_contains(d, if_advertised(help, "save-resource"@), command);
    lemma_either_contains(e, if_advertised(help, "save-screenshot"@), command);
    lemma_either_contains(f, if_advertised(help, "save-high-frequency-counters"@), command);
    lemma_either_contains(g, if_advertised(help, "collect-occupancy"@), command);
    lemma_either_contains(h, if_advertised(help, "upgrade-gpu-capture"@), command);
}

proof fn lemma_one_advertised(help: Seq<char>, known: Seq<char>, command: Seq<char>)
    ensures
        if_advertised(help, known).contains(command) <==> command == known && advertises(
            help,
            known,
        ),
{
    if advertises(help, known) {
        assert(if_advertised(help, known)[0] == known);
    }
}

proof fn lemma_either_contains(a: Seq<Seq<char>>, b: Seq<Seq<char>>, x: Seq<char>)
    ensures
        (a + b).contains(x) <==> a.contains(x) || b.contains(x),
{
    let s = a + b;
    if s.contains(x) {
        let i = choose|i: int| 0 <= i < s.len() && s[i] == x;
        if i < a.len() {
            assert(a[i] == x);
        } else {
            assert(b[i - a.len()] == x);
        }
    }
    if a.contains(x) {
        let i = choose|i: int| 0 <= i < a.len() && a[i] == x;
        assert(s[i] == x);
    }
    if b.contains(x) {
        let i = choose|i: int| 0 <= i < b.len() && b[i] == x;
        assert(s[a.len() + i] == x);
    }
}

/// The output of the health check is that of `pixtool` where it shows its usage, in any case, and
/// advertises that it opens captures.
pub proof fn pixtool_is_known_by_its_help(combined: Seq<char>, before: Seq<char>, after: Seq<char>)
    ensures
        lower_ascii(combined) == before + "usage: pixtool"@ + after && advertises(
            combined,
            "open-capture"@,
        ) ==> is_pixtool_help(combined),
        is_pixtool_help(combined) ==> advertises(combined, "open-capture"@) && exists|
            b: Seq<char>,
            a: Seq<char>,
        |
            lower_ascii(combined) == #[trigger] (b + "usage: pixtool"@ + a),
{
    parts_are_found_anywhere(before, "usage: pixtool"@, after);
    found_parts_are_there(lower_ascii(combined), "usage: pixtool"@);
}

/// The name of a version has a digit in it, and nothing but digits and dots.
pub proof fn versions_are_digits_and_dots(name: Seq<char>, c: char, rest: Seq<char>)
    ensures
        is_version(name + seq![c] + rest) ==> is_digit(c) || c == '.',
        !is_version(Seq::empty()),
        (forall|i: int| 0 <= i < name.len() ==> is_digit(#[trigger] name[i]) || name[i] == '.')
            && is_digit(c) ==> is_version(name.push(c)),
{
    let whole = name + seq![c] + rest;
    if is_version(whole) {
        assert(whole[name.len() as int] == c);
    }
    if (forall|i: int| 0 <= i < name.len() ==> is_digit(#[trigger] name[i]) || name[i] == '.')
        && is_digit(c) {
        let longer = name.push(c);
        assert(is_digit(longer[name.len() as int]));
        assert forall|i: int| 0 <= i < longer.len() implies is_digit(#[trigger] longer[i])
            || longer[i] == '.' by {
            if i < name.len() {
                assert(longer[i] == name[i]);
            }
        }
    }
}

/// The directory that a path is in is what stands before its last name and the separator.
pub proof fn directories_stand_before_the_last_name(directory: Seq<char>, c: char, name: Seq<char>)
    requires
        c == '/' || c == '\\' || c == ':',
        !name.contains('/') && !name.contains('\\') && !name.contains(':'),
    ensures
        directory_of(directory + seq![c] + name) == directory,
        directory_of(name).len() == 0,
{
    let parent = directory + seq![c];
    assert(parent[parent.len() - 1] == c);
    crate::path_laws::paths_end_with_their_last_name(parent, name);
    crate::path_laws::paths_end_with_their_last_name(Seq::empty(), name);
    assert(Seq::<char>::empty() + name =~= name);
    let path = parent + name;
    assert(path.take(path.len() - name.len() - 1) =~= directory);
}

/// All is well exactly where PIX was found and verified and the server may do everything; otherwise
/// something is suggested, unless only rights are as they should be.
pub proof fn suggestions_say_what_lacks(found: bool, has_error: bool, is_admin: bool, elevated: bool)
    ensures
        suggestions_for(found, has_error, is_admin, elevated).len() > 0,
        !found ==> suggestions_for(found, has_error, is_admin, elevated).len() >= 2,
        suggestions_for(found, has_error, is_admin, elevated)[0] == "All systems operational"@
            ==> found && !has_error && is_admin && elevated,
        found && !has_error && is_admin && elevated ==> suggestions_for(
            found,
            has_error,
            is_admin,
            elevated,
        ) == seq!["All systems operational"@],
{
    reveal_strlit("All systems operational");
    reveal_strlit("Run as administrator to enable timing captures");
    reveal_strlit(
        "Use a separate non-elevated server for application-launch tools; timing capture remains enabled here",
    );
    reveal_strlit(
        "The resolved PIXTOOL_PATH could not be verified; point it to a working pixtool.exe",
    );
    reveal_strlit(
        "Install PIX from the Microsoft Store: https://apps.microsoft.com/store/detail/pix-on-windows/9PGD9BTP9D71",
    );
    assert("All systems operational"@[0] == 'A');
    assert("Run as administrator to enable timing captures"@[0] == 'R');
    assert("Use a separate non-elevated server for application-launch tools; timing capture remains enabled here"@[0]
        == 'U');
    assert("The resolved PIXTOOL_PATH could not be verified; point it to a working pixtool.exe"@[0]
        == 'T');
    assert("Install PIX from the Microsoft Store: https://apps.microsoft.com/store/detail/pix-on-windows/9PGD9BTP9D71"@[0]
        == 'I');
}

// ---------------------------------------------------------------------------
// Screenshots
// ---------------------------------------------------------------------------

/// The options of a screenshot are accepted exactly where they do not contradict each other and are
/// within their bounds.
pub proof fn screenshot_options_are_bounded(
    depth: bool,
    marker: Option<Seq<char>>,
    global_id: Option<u64>,
    rtv_index: Option<u64>,
    embed_image: bool,
    max_dimension: u32,
)
    ensures
        screenshot_problem(
            depth,
            marker,
            global_id,
            rtv_index,
            embed_image,
            max_dimension,
        ) is None <==> {
            &&& embed_image ==> 1 <= max_dimension <= 4096
            &&& !(depth && rtv_index is Some)
            &&& rtv_index matches Some(n) ==> n <= 7
            &&& !(marker is Some && global_id is Some)
            &&& marker matches Some(text) ==> !is_blank(text)
        },
{
}

/// A screenshot is saved under the name that was given, which gets `.png` where it does not end with
/// that in lower case.
pub proof fn screenshots_are_saved_as_png(path: Seq<char>, before: Seq<char>, lower: Seq<char>)
    ensures
        lower == before + ".png"@ ==> png_path(path, lower) == path,
        !ends_with(lower, ".png"@) ==> png_path(path, lower) == path + ".png"@,
{
    parts_are_found_anywhere(before, ".png"@, Seq::empty());
}

/// The capture is replayed exactly where something else than the recorded screenshot is asked for,
/// and every selector that is given is passed on.
pub proof fn selectors_are_passed_on(request: ScreenshotRequest)
    ensures
        needs_replay(request) <==> resource_options(request).len() > 0,
        request.depth ==> resource_options(request).contains(Arg::Plain("--depth"@)),
        request.rtv_index matches Some(n) ==> resource_options(request).contains(
            Arg::Plain("--rtv="@ + decimal(n as nat)),
        ),
        request.global_id matches Some(n) ==> resource_options(request).contains(
            Arg::Plain("--global-id="@ + decimal(n as nat)),
        ),
        request.marker matches Some(text) ==> resource_options(request).contains(
            Arg::Valued("--marker"@, text@),
        ),
{
    let all = resource_options(request);
    let r: int = if request.rtv_index is Some {
        1
    } else {
        0
    };
    let d: int = if request.depth {
        1
    } else {
        0
    };
    let g: int = if request.global_id is Some {
        1
    } else {
        0
    };
    if let Some(n) = request.rtv_index {
        assert(all[0] == Arg::Plain("--rtv="@ + decimal(n as nat)));
    }
    if request.depth {
        assert(all[r] == Arg::Plain("--depth"@));
    }
    if let Some(n) = request.global_id {
        assert(all[r + d] == Arg::Plain("--global-id="@ + decimal(n as nat)));
    }
    if let Some(text) = request.marker {
        assert(all[r + d + g] == Arg::Valued("--marker"@, text@));
    }
}

/// An image is put into an answer as it is exactly where neither side is longer than what was asked
/// for. One that is scaled down the usual way is one whose sums of channels cannot overflow 32 bits.
pub proof fn images_are_scaled_down_where_they_must_be(shape: (u32, u32, u8, u8), max_dim: u32)
    ensures
        embedding_of(shape, max_dim) == Embedding::Whole <==> shape.0 <= max_dim && shape.1
            <= max_dim,
        embedding_of(shape, max_dim) == Embedding::Thumbnail ==> ({
            let n = block_pixels(shape.0 as nat, shape.1 as nat, max_dim as nat);
            let top: nat = if shape.2 > shape.3 {
                65_535
            } else {
                255
            };
            n * top + n / 2 <= u32::MAX
        }),
{
    let n = block_pixels(shape.0 as nat, shape.1 as nat, max_dim as nat);
    if embedding_of(shape, max_dim) == Embedding::Thumbnail {
        if shape.2 > shape.3 {
            assert(n <= 65_536);
        } else {
            assert(n <= 16_810_048);
        }
    }
}

/// Taking the channels of an image apart and putting them together again gives the image.
pub proof fn channels_are_put_together_again(samples: Seq<u16>, channels: nat, pixels: nat)
    requires
        channels > 0,
        samples.len() == pixels * channels,
    ensures
        interleaved(Seq::new(channels, |c: int| plane(samples, channels, c as nat)), pixels)
            == samples.map_values(|sample: u16| sample as u32),
{
    let planes = Seq::new(channels, |c: int| plane(samples, channels, c as nat));
    let all = interleaved(planes, pixels);
    let wide = samples.map_values(|sample: u16| sample as u32);
    let n = channels as int;
    assert(planes.len() == channels);
    assert((pixels * channels) / channels == pixels) by (nonlinear_arith)
        requires
            channels > 0,
    ;
    assert forall|i: int| 0 <= i < all.len() implies #[trigger] all[i] == wide[i] by {
        assert(0 <= i % n < n && 0 <= i / n < pixels && (i / n) * n + i % n == i)
            by (nonlinear_arith)
            requires
                0 <= i < pixels * n,
                n > 0,
        ;
        assert(planes[i % n] == plane(samples, channels, (i % n) as nat));
        assert(planes[i % n][i / n] == samples[(i / n) * n + i % n] as u32);
    }
    assert(all =~= wide);
}

// ---------------------------------------------------------------------------
// Answers
// ---------------------------------------------------------------------------

/// A page of an event list has as many rows as were asked for, up to 2000; where nothing was asked
/// for, 50 in a summary and 500 otherwise.
pub proof fn pages_are_as_long_as_asked_for(n: usize)
    ensures
        n <= 2000 ==> page_limit(Some(n), None) == n,
        n > 2000 ==> page_limit(Some(n), None) == 2000,
        page_limit(Some(n), Some(ResponseFormat::Full)) == page_limit(Some(n), None),
        page_limit(None, None) == 50,
        page_limit(None, Some(ResponseFormat::Summary)) == 50,
        page_limit(None, Some(ResponseFormat::Full)) == 500,
{
}

/// A summary that fits is returned as it is. Of one that does not, only top events are left out,
/// from the last on, and columns only once no top event is left; every count stays, and a note says
/// so.
pub proof fn summaries_keep_their_counts(summary: Summary)
    ensures
        summary.fits() ==> summary.fitted() == Some(summary),
        summary.fitted() matches Some(found) ==> {
            &&& found.success == summary.success
            &&& found.capture_path == summary.capture_path
            &&& found.total_events == summary.total_events
            &&& found.draw_calls == summary.draw_calls
            &&& found.dispatches == summary.dispatches
            &&& found.resource_barriers == summary.resource_barriers
            &&& found.render_target_changes == summary.render_target_changes
            &&& found.copies == summary.copies
            &&& found.top_events.len() <= summary.top_events.len()
            &&& found.top_events == summary.top_events.take(found.top_events.len() as int)
            &&& found.event_columns.len() <= summary.event_columns.len()
            &&& found.event_columns == summary.event_columns.take(found.event_columns.len() as int)
            &&& found.event_columns.len() < summary.event_columns.len() ==> found.top_events.len()
                == 0
            &&& summary.fits() ==> found.notes == summary.notes
            &&& !summary.fits() ==> found.notes.len() == summary.notes.len() + 1
                && found.notes.take(summary.notes.len() as int) == summary.notes
        },
{
    assert(summary.top_events.take(summary.top_events.len() as int) =~= summary.top_events);
    assert(summary.event_columns.take(summary.event_columns.len() as int)
        =~= summary.event_columns);
    if !summary.fits() {
        let noted = summary.noted();
        if let Some(less) = noted.less() {
            lemma_trimmed_summary(less);
            lemma_less(noted);
            if let Some(found) = summary.fitted() {
                lemma_prefix_of_prefix(found, less, noted);
                assert(noted.notes.take(summary.notes.len() as int) =~= summary.notes);
            }
        }
    }
}

/// Whether `less` is `more` with events, and then columns, left out at the end.
spec fn is_shorter(less: Summary, more: Summary) -> bool {
    &&& less.success == more.success
    &&& less.capture_path == more.capture_path
    &&& less.total_events == more.total_events
    &&& less.draw_calls == more.draw_calls
    &&& less.dispatches == more.dispatches
    &&& less.resource_barriers == more.resource_barriers
    &&& less.render_target_changes == more.render_target_changes
    &&& less.copies == more.copies
    &&& less.notes == more.notes
    &&& less.top_events.len() <= more.top_events.len()
    &&& less.top_events == more.top_events.take(less.top_events.len() as int)
    &&& less.event_columns.len() <= more.event_columns.len()
    &&& less.event_columns == more.event_columns.take(less.event_columns.len() as int)
    &&& less.event_columns.len() < more.event_columns.len() ==> less.top_events.len() == 0
}

proof fn lemma_less(summary: Summary)
    ensures
        summary.less() matches Some(less) ==> is_shorter(less, summary),
{
    if let Some(less) = summary.less() {
        assert(summary.top_events.take(summary.top_events.len() as int) =~= summary.top_events);
        assert(summary.event_columns.take(summary.event_columns.len() as int)
            =~= summary.event_columns);
        if summary.top_events.len() > 0 {
            assert(less.top_events =~= summary.top_events.take(less.top_events.len() as int));
        } else {
            assert(less.event_columns =~= summary.event_columns.take(
                less.event_columns.len() as int,
            ));
        }
    }
}

proof fn lemma_prefix_of_prefix(a: Summary, b: Summary, c: Summary)
    requires
        is_shorter(a, b),
        is_shorter(b, c),
    ensures
        is_shorter(a, c),
{
    assert(c.top_events.take(b.top_events.len() as int).take(a.top_events.len() as int)
        =~= c.top_events.take(a.top_events.len() as int));
    assert(c.event_columns.take(b.event_columns.len() as int).take(a.event_columns.len() as int)
        =~= c.event_columns.take(a.event_columns.len() as int));
}

proof fn lemma_trimmed_summary(summary: Summary)
    ensures
        summary.trimmed_to_fit() matches Some(found) ==> is_shorter(found, summary),
    decreases summary.top_events.len() + summary.event_columns.len(),
{
    assert(summary.top_events.take(summary.top_events.len() as int) =~= summary.top_events);
    assert(summary.event_columns.take(summary.event_columns.len() as int)
        =~= summary.event_columns);
    if !summary.fits() {
        if let Some(less) = summary.less() {
            lemma_less(summary);
            lemma_trimmed_summary(less);
            if let Some(found) = less.trimmed_to_fit() {
                lemma_prefix_of_prefix(found, less, summary);
            }
        }
    }
}

/// A comparison that fits is returned as it is, and of one that does not, no more is kept than it
/// has.
pub proof fn comparisons_that_fit_are_returned_whole(report: CompareReport, kept: Kept)
    ensures
        report.fits(kept) ==> report.fitted_from(kept) == Some(kept),
        report.fitted_from(kept) matches Some(found) ==> {
            &&& found.changes <= kept.changes
            &&& found.added <= kept.added
            &&& found.removed <= kept.removed
            &&& found.timing ==> kept.timing
        },
    decreases kept.bulk(),
{
    if !report.fits(kept) {
        if let Some(less) = kept.less() {
            comparisons_that_fit_are_returned_whole(report, less);
        }
    }
}

/// A capture whose command did not succeed is never accepted, however it was taken.
pub proof fn failed_captures_are_refused(kind: CaptureKind, output: CommandOutput)
    ensures
        capture_run_problem(kind, output) is None <==> output.success,
{
}

// ---------------------------------------------------------------------------
// JSON
// ---------------------------------------------------------------------------

/// A JSON string is its characters between quotation marks, each by itself: quotation marks,
/// backslashes and control characters with a backslash before them, and every other as it is.
pub proof fn texts_are_escaped_character_by_character(a: Seq<char>, b: Seq<char>, c: char)
    ensures
        all_escaped(a + b) == all_escaped(a) + all_escaped(b),
        all_escaped(seq![c]) == escaped(c),
        c >= ' ' && c != '"' && c != '\\' ==> escaped(c) == seq![c],
        c == '"' || c == '\\' || c < ' ' ==> escaped(c).len() >= 2 && escaped(c)[0] == '\\',
        quoted(a).len() == all_escaped(a).len() + 2,
        quoted(a)[0] == '"',
    decreases b.len(),
{
    assert(all_escaped(Seq::<char>::empty()) == Seq::<char>::empty());
    assert(seq![c].drop_last() =~= Seq::<char>::empty());
    assert(all_escaped(seq![c]) =~= escaped(c));
    if b.len() == 0 {
        assert(a + b =~= a);
        assert(all_escaped(a) + all_escaped(b) =~= all_escaped(a));
    } else {
        texts_are_escaped_character_by_character(a, b.drop_last(), c);
        assert((a + b).drop_last() =~= a + b.drop_last());
        assert((a + b).last() == b.last());
        assert(all_escaped(a + b) =~= all_escaped(a) + all_escaped(b));
    }
}

/// Of a comparison, changes are left out first, from the last on, then columns that were added, then
/// columns that were removed, and last the timing.
pub proof fn comparisons_are_cut_from_the_end(report: CompareReport, kept: Kept)
    ensures
        report.fitted_from(kept) matches Some(found) ==> {
            &&& found.added < kept.added ==> found.changes == 0
            &&& found.removed < kept.removed ==> found.changes == 0 && found.added == 0
            &&& kept.timing && !found.timing ==> found.changes == 0 && found.added == 0
                && found.removed == 0
        },
    decreases kept.bulk(),
{
    if !report.fits(kept) {
        if let Some(less) = kept.less() {
            comparisons_are_cut_from_the_end(report, less);
            comparisons_that_fit_are_returned_whole(report, less);
        }
    }
}

/// Whatever is left out of a comparison, its counts stay, what is returned is the beginning of what
/// there was, and what was left out is said to be.
pub proof fn cut_comparisons_keep_their_counts(
    report: CompareReport,
    kept: Kept,
    out: CompareReport,
)
    requires
        report.is_kept(kept, out),
    ensures
        out.success == report.success,
        out.capture_a == report.capture_a,
        out.capture_b == report.capture_b,
        out.comparison == report.comparison,
        out.event_structure is Some == report.event_structure is Some,
        report.event_structure matches Some(structure) ==> {
            let shown = out.event_structure->0;
            &&& shown.sequence == structure.sequence
            &&& shown.changed_event_kinds == structure.changed_event_kinds
            &&& shown.baseline_total_events == structure.baseline_total_events
            &&& shown.comparison_total_events == structure.comparison_total_events
            &&& shown.top_changes.len() <= structure.top_changes.len()
            &&& forall|i: int|
                0 <= i < shown.top_changes.len() ==> #[trigger] shown.top_changes@[i]
                    == structure.top_changes@[i]
            &&& shown.top_changes.len() < structure.top_changes.len() ==> shown.changes_truncated
            &&& shown.columns.added.len() < structure.columns.added.len()
                ==> shown.columns.truncated
            &&& shown.columns.removed.len() < structure.columns.removed.len()
                ==> shown.columns.truncated
        },
        out.gpu_timing is Some ==> out.gpu_timing == report.gpu_timing,
        report.gpu_timing is Some && out.gpu_timing is None ==> out.warnings.len()
            == report.warnings.len() + 1,
{
    assert(texts(out.warnings@).len() == out.warnings.len());
    assert(texts(report.warnings@).len() == report.warnings.len());
    if let Some(structure) = report.event_structure {
        let shown = out.event_structure->0;
        assert(shown.top_changes@ == structure.top_changes@.take(kept.changes as int));
        assert(shown.columns.added@ == structure.columns.added@.take(kept.added as int));
        assert(shown.columns.removed@ == structure.columns.removed@.take(kept.removed as int));
    }
}

/// An answer with a page says how many rows it has and where the next page begins: right behind its
/// last row, exactly where rows are left.
pub proof fn answers_say_where_to_go_on(report: EventListReport, page: Page)
    requires
        answers_with(report, page),
        page.offset + page.rows.len() <= page.total_events,
    ensures
        report.success,
        report.rows is Some && texts(report.rows->0@) == page.rows,
        report.returned is Some && report.returned->0 == report.rows->0@.len(),
        report.offset is Some && report.offset->0 == page.offset,
        report.total_events == page.total_events,
        report.next_offset is Some <==> page.offset + page.rows.len() != page.total_events,
        report.next_offset matches Some(next) ==> next == report.offset->0 + report.returned->0,
        report.truncated == Some(report.next_offset is Some),
        report.message is Some <==> report.next_offset is Some,
{
    assert(texts(report.rows->0@).len() == report.rows->0@.len());
}

/// A capture in a list is shown with its own path, name and size, and its time where that is not
/// before the epoch.
pub proof fn captures_are_shown_as_they_are(entry: CaptureEntry, capture: CaptureInfo)
    ensures
        shows(entry, capture) <==> {
            &&& entry.path@ == capture.path@
            &&& entry.name@ == capture.name@
            &&& entry.size_bytes == capture.size_bytes
            &&& entry.modified is Some <==> capture.modified is Some && capture.modified->0.seconds
                >= 0
            &&& entry.modified matches Some(seconds) ==> seconds == capture.modified->0.seconds
        },
        entry_shows(entry, capture) <==> {
            &&& entry.path@ == capture.path@
            &&& entry.name@ == capture.name@
            &&& entry.size_bytes == capture.size_bytes
            &&& entry.modified is Some <==> capture.modified is Some
            &&& entry.modified matches Some(seconds) ==> seconds == if capture.modified->0.seconds
                < 0 {
                0
            } else {
                capture.modified->0.seconds as int
            }
        },
{
}

/// Five tools are asked for their output path, and no other: those that save a capture or a
/// screenshot.
pub proof fn tools_that_save_are_asked_for_a_path(name: Seq<char>)
    ensures
        elicitation(name) is Some <==> name == "pix_gpu_capture"@ || name
            == "pix_gpu_capture_launch"@ || name == "pix_timing_capture"@ || name
            == "pix_get_screenshot"@ || name == "pix_capture_and_analyze"@,
        elicitation(name) matches Some((argument, question)) ==> argument == "process_id"@
            || argument == "exe_path"@ || argument == "capture_path"@,
{
}

/// The timing of a comparison is reported only where the lists hold counters, and the structure
/// wherever both were exported.
pub proof fn comparisons_report_what_was_exported(
    structure: EventStructureComparison,
    gpu_timing: Option<GpuTimingComparison>,
    error_a: Option<String>,
    error_b: Option<String>,
)
    ensures
        structure_of(
            (EventExports::Compared { structure, gpu_timing, counters_available: true }),
        ) == Some(structure),
        timing_of((EventExports::Compared { structure, gpu_timing, counters_available: true }))
            == gpu_timing,
        timing_of((EventExports::Compared { structure, gpu_timing, counters_available: false }))
            is None,
        structure_of((EventExports::Failed { error_a, error_b })) is None,
        timing_of((EventExports::Failed { error_a, error_b })) is None,
{
}

/// What is said of a comparison that nothing was left out of stays as it was.
pub proof fn whole_comparisons_are_not_said_to_be_cut(
    report: CompareReport,
    kept: Kept,
    out: CompareReport,
)
    requires
        report.is_kept(kept, out),
        report.event_structure is Some,
        out.event_structure->0.top_changes.len() == report.event_structure->0.top_changes.len(),
        out.event_structure->0.columns.added.len()
            == report.event_structure->0.columns.added.len(),
        out.event_structure->0.columns.removed.len()
            == report.event_structure->0.columns.removed.len(),
    ensures
        out.event_structure->0.changes_truncated == report.event_structure->0.changes_truncated,
        out.event_structure->0.columns.truncated == report.event_structure->0.columns.truncated,
        out.gpu_timing == report.gpu_timing ==> texts(out.warnings@) == texts(report.warnings@),
{
    let structure = report.event_structure->0;
    let shown = out.event_structure->0;
    assert(shown.top_changes@ == structure.top_changes@.take(kept.changes as int));
    assert(shown.columns.added@ == structure.columns.added@.take(kept.added as int));
    assert(shown.columns.removed@ == structure.columns.removed@.take(kept.removed as int));
}

/// Exports are made with counters where they were asked for, and never again once they failed.
pub proof fn counters_are_asked_for_once(plan: ComparisonPlan)
    ensures
        plan.is_retry() ==> !plan.has_counters(),
        !plan.wants_counters() ==> !plan.has_counters(),
        plan.wants_counters() && !plan.is_retry() ==> plan.has_counters(),
{
}

/// A cursor has a generation and an offset with one colon between them: one without a colon, and one
/// with another behind it, is refused.
pub proof fn cursors_have_two_parts(
    first: Seq<char>,
    rest: Seq<char>,
    generation: nat,
    total: nat,
)
    requires
        !first.contains(':'),
    ensures
        cursor_offset("pix-captures-v2:"@ + first, generation, total) is Err,
        rest.contains(':') ==> cursor_offset(
            "pix-captures-v2:"@ + first + seq![':'] + rest,
            generation,
            total,
        ) is Err,
{
    reveal_strlit("pix-captures-v2:");
    let prefix = "pix-captures-v2:"@;
    let short = prefix + first;
    assert(short.skip(16) =~= first);
    assert forall|k: int| 0 <= k < first.len() implies first[k] != ':' by {
        assert(first.contains(first[k]));
    }
    lemma_first_at_is(first, ':', first.len() as int);
    let long = prefix + first + seq![':'] + rest;
    let payload = first + seq![':'] + rest;
    assert(long.skip(16) =~= payload);
    assert(payload[first.len() as int] == ':');
    assert forall|k: int| 0 <= k < first.len() implies payload[k] != ':' by {
        assert(payload[k] == first[k]);
    }
    lemma_first_at_is(payload, ':', first.len() as int);
    assert(payload.skip(first.len() as int + 1) =~= rest);
}

/// An image that has to be smaller is scaled down the usual way exactly where no pixel of its
/// thumbnail stands for too many; otherwise channel by channel.
pub proof fn large_reductions_go_channel_by_channel(shape: (u32, u32, u8, u8), max_dim: u32)
    requires
        shape.0 > max_dim || shape.1 > max_dim,
    ensures
        ({
            let n = block_pixels(shape.0 as nat, shape.1 as nat, max_dim as nat);
            let bound: nat = if shape.2 > shape.3 {
                65_536
            } else {
                16_810_048
            };
            embedding_of(shape, max_dim) == if n <= bound {
                Embedding::Thumbnail
            } else {
                Embedding::Planes
            }
        }),
{
}

/// Every platform agrees on the directory that a path with slashes only is in, where that has a name.
pub proof fn directories_behind_slashes_are_settled(
    before: Seq<char>,
    directory: Seq<char>,
    name: Seq<char>,
)
    requires
        !before.contains('\\') && !before.contains(':'),
        before.len() == 0 || before[before.len() - 1] == '/',
        !(before.len() >= 2 && before[0] == '/' && before[1] == '/'),
        !directory.contains('/') && !directory.contains('\\') && !directory.contains(':'),
        directory.len() > 0 && directory != "."@ && directory != ".."@,
        !name.contains('/') && !name.contains('\\') && !name.contains(':'),
        name.len() > 0 && name != "."@ && name != ".."@,
    ensures
        is_directory_settled(before + directory + seq!['/'] + name),
{
    let parent = before + directory;
    let path = parent + seq!['/'] + name;
    directories_stand_before_the_last_name(parent, '/', name);
    let stem = seq!['a'];
    let none = Seq::<char>::empty();
    assert(!none.contains('.'));
    if before.len() >= 2 {
        assert(before.contains(before[0]) && before.contains(before[1]));
    }
    crate::path_laws::ordinary_paths_are_settled(before, directory, stem, none);
    assert(is_settled(parent));
    let folder = parent + seq!['/'];
    assert(folder[folder.len() - 1] == '/');
    assert forall|c: char| folder.contains(c) implies c == '/' || before.contains(c)
        || directory.contains(c) by {
        let k = choose|k: int| 0 <= k < folder.len() && folder[k] == c;
        if k < before.len() {
            assert(before[k] == c);
        } else if k < parent.len() {
            assert(directory[k - before.len()] == c);
        }
    }
    if folder.len() >= 2 {
        assert(!(folder[0] == '/' && folder[1] == '/')) by {
            if before.len() >= 2 {
                assert(folder[0] == before[0] && folder[1] == before[1]);
            } else if before.len() == 1 {
                assert(folder[1] == directory[0]);
                assert(directory.contains(directory[0]));
            } else {
                assert(folder[0] == directory[0]);
                assert(directory.contains(directory[0]));
            }
        }
        assert(folder.contains(folder[0]) && folder.contains(folder[1]));
    }
    crate::path_laws::ordinary_paths_are_settled(folder, name, stem, none);
    crate::path_laws::portable_paths_have_slashes_only(path);
    assert forall|c: char| path.contains(c) implies folder.contains(c) || name.contains(c) by {
        let k = choose|k: int| 0 <= k < path.len() && path[k] == c;
        if k < folder.len() {
            assert(folder[k] == c);
        } else {
            assert(name[k - folder.len()] == c);
        }
    }
    if path.len() >= 2 && folder.len() >= 2 {
        assert(path[0] == folder[0] && path[1] == folder[1]);
    }
}

} // verus!
