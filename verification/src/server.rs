//! Decisions of the protocol layer: progress, cursors, and asking for output paths.

use crate::events::least;
use crate::failure::Failure;
use crate::finite::{bits_are_finite, is_finite};
use crate::numbers::{
    decimal, decimal_reads_back, decimal_text, hex_digits, hex_reads_back, hex_text,
    parse_unsigned, pow16, unsigned,
};
use crate::resources::ResourceReadError;
use crate::text::{
    blank, chars_of, concat3, contains_char, first_at, is_blank, lemma_first_at_is, optional_text,
    same_text, starts_with, starts_with_text, sub_text,
};
use vstd::prelude::*;
use vstd::string::*;

verus! {

/// How far progress notifications are apart, in nanoseconds.
pub const PROGRESS_NOTIFICATION_INTERVAL_NANOS: u64 = 1_000_000_000;

/// How many resources a page of the catalog has.
pub const RESOURCE_PAGE_SIZE: usize = 100;

// ---------------------------------------------------------------------------
// Progress
// ---------------------------------------------------------------------------

/// Decides which progress notifications are sent: each goes beyond the one before it, and they
/// are not sent too often.
#[derive(Debug)]
pub struct ProgressGate {
    /// The bits of the progress that was sent last.
    pub last_progress: u64,
    /// When it was sent, in nanoseconds.
    pub last_sent: Option<u64>,
}

/// A finite number, by its bits, on a scale on which larger numbers are larger.
pub open spec fn scale(bits: u64) -> int {
    if bits < 0x8000_0000_0000_0000 {
        bits as int
    } else {
        -(bits - 0x8000_0000_0000_0000)
    }
}

fn exceeds(a: u64, b: u64) -> (r: bool)
    ensures
        r == (scale(a) > scale(b)),
{
    let a_positive = a < 0x8000_0000_0000_0000;
    let b_positive = b < 0x8000_0000_0000_0000;
    if a_positive && b_positive {
        a > b
    } else if a_positive {
        a > 0 || b > 0x8000_0000_0000_0000
    } else if b_positive {
        false
    } else {
        a < b
    }
}

/// Whether too little time has passed between two points in time.
pub open spec fn is_too_soon(last: Option<u64>, now: u64) -> bool {
    last is Some && (now < last->0 || now - last->0 < PROGRESS_NOTIFICATION_INTERVAL_NANOS)
}

impl ProgressGate {
    /// Nothing has been sent; progress starts above -1.
    pub fn new() -> (r: ProgressGate)
        ensures
            r.last_sent is None,
            r.last_progress == 0xBFF0_0000_0000_0000,
    {
        ProgressGate { last_progress: 0xBFF0_0000_0000_0000, last_sent: None }
    }

    /// Whether a notification is sent: `progress`, given by its bits, must be finite and beyond
    /// the last, and, unless it is forced, enough time must have passed.
    pub fn accept(&mut self, progress: u64, now: u64, force: bool) -> (r: bool)
        ensures
            r == (is_finite(progress) && scale(progress) > scale(old(self).last_progress) && (force
                || !is_too_soon(old(self).last_sent, now))),
            r ==> final(self).last_progress == progress && final(self).last_sent == Some(now),
            !r ==> *final(self) == *old(self),
    {
        if !bits_are_finite(progress) || !exceeds(progress, self.last_progress) {
            return false;
        }
        if !force {
            if let Some(last) = self.last_sent {
                if now < last || now - last < PROGRESS_NOTIFICATION_INTERVAL_NANOS {
                    return false;
                }
            }
        }
        self.last_progress = progress;
        self.last_sent = Some(now);
        true
    }
}

/// A notification that asks to be sent.
pub struct Offer {
    pub progress: u64,
    pub now: u64,
    pub force: bool,
}

/// The offers that pass a gate whose last notification was `last_progress` at `last_sent`.
pub open spec fn admitted(last_progress: u64, last_sent: Option<u64>, offers: Seq<Offer>) -> Seq<Offer>
    decreases offers.len(),
{
    if offers.len() == 0 {
        seq![]
    } else {
        let offer = offers[0];
        let rest = offers.subrange(1, offers.len() as int);
        if is_finite(offer.progress) && scale(offer.progress) > scale(last_progress) && (offer.force
            || !is_too_soon(last_sent, offer.now)) {
            seq![offer] + admitted(offer.progress, Some(offer.now), rest)
        } else {
            admitted(last_progress, last_sent, rest)
        }
    }
}

/// Whatever is offered, what is sent makes progress from one to the next, and what is not forced
/// comes no sooner than the interval after what was sent before it.
pub proof fn sent_progress_is_monotone_and_rate_limited(
    last_progress: u64,
    last_sent: Option<u64>,
    offers: Seq<Offer>,
)
    ensures
        ({
            let sent = admitted(last_progress, last_sent, offers);
            &&& forall|i: int| 0 <= i < sent.len() ==> scale((#[trigger] sent[i]).progress) > scale(last_progress)
            &&& forall|i: int, j: int|
                0 <= i < j < sent.len() ==> scale((#[trigger] sent[i]).progress) < scale(
                    (#[trigger] sent[j]).progress,
                )
            &&& forall|i: int|
                0 < i < sent.len() && !(#[trigger] sent[i]).force ==> sent[i].now >= sent[i - 1].now
                    + PROGRESS_NOTIFICATION_INTERVAL_NANOS
            &&& sent.len() > 0 && !sent[0].force ==> !is_too_soon(last_sent, sent[0].now)
        }),
    decreases offers.len(),
{
    if offers.len() > 0 {
        let offer = offers[0];
        let rest = offers.subrange(1, offers.len() as int);
        if is_finite(offer.progress) && scale(offer.progress) > scale(last_progress) && (offer.force
            || !is_too_soon(last_sent, offer.now)) {
            sent_progress_is_monotone_and_rate_limited(offer.progress, Some(offer.now), rest);
            let tail = admitted(offer.progress, Some(offer.now), rest);
            let sent = admitted(last_progress, last_sent, offers);
            assert(sent =~= seq![offer] + tail);
            assert forall|i: int| 0 <= i < sent.len() implies scale((#[trigger] sent[i]).progress)
                > scale(last_progress) by {
                if i > 0 {
                    assert(sent[i] == tail[i - 1]);
                }
            }
            assert forall|i: int, j: int| 0 <= i < j < sent.len() implies scale(
                (#[trigger] sent[i]).progress,
            ) < scale((#[trigger] sent[j]).progress) by {
                assert(sent[j] == tail[j - 1]);
                if i > 0 {
                    assert(sent[i] == tail[i - 1]);
                }
            }
            assert forall|i: int| 0 < i < sent.len() && !(#[trigger] sent[i]).force implies sent[i].now
                >= sent[i - 1].now + PROGRESS_NOTIFICATION_INTERVAL_NANOS by {
                assert(sent[i] == tail[i - 1]);
                if i > 1 {
                    assert(sent[i - 1] == tail[i - 2]);
                }
            }
        } else {
            sent_progress_is_monotone_and_rate_limited(last_progress, last_sent, rest);
        }
    }
}

/// What stage an operation has reached.
#[derive(Debug, Clone, Copy, PartialEq, Eq, Structural)]
pub enum OperationStage {
    Started,
    Running,
    Finished,
}

/// The message that goes with the progress of an operation.
pub fn progress_message(operation: &str, stage: OperationStage) -> (r: String)
    ensures
        r@ == operation@ + match stage {
            OperationStage::Started => " started"@,
            OperationStage::Running => " is still running"@,
            OperationStage::Finished => " finished"@,
        },
{
    let mut r = operation.to_string();
    match stage {
        OperationStage::Started => r.append(" started"),
        OperationStage::Running => r.append(" is still running"),
        OperationStage::Finished => r.append(" finished"),
    }
    r
}

// ---------------------------------------------------------------------------
// Cursors
// ---------------------------------------------------------------------------

/// Refuses a cursor where there are no pages.
pub fn reject_cursor(cursor: Option<&str>, endpoint: &str) -> (r: Result<(), Failure>)
    ensures
        r is Err == cursor is Some,
        r matches Err(e) ==> e.message@ == endpoint@
            + " does not paginate; cursor must be omitted"@,
{
    if cursor.is_some() {
        let mut message = endpoint.to_string();
        message.append(" does not paginate; cursor must be omitted");
        return Err(Failure::new(message));
    }
    Ok(())
}

/// The cursor of the page that starts at `offset` of the catalog of the given generation.
pub open spec fn cursor_text(generation: nat, offset: nat) -> Seq<char> {
    "pix-captures-v2:"@ + hex_digits(generation, 16) + ":"@ + decimal(offset)
}

pub fn resource_cursor(generation: u64, offset: usize) -> (r: String)
    ensures
        r@ == cursor_text(generation as nat, offset as nat),
{
    let mut r = concat3("pix-captures-v2:", &hex_text(generation, 16), ":");
    r.append(&decimal_text(offset as u64));
    r
}

/// The generation and the offset in a cursor, where it has the form of one.
pub open spec fn cursor_parts(cursor: Seq<char>) -> Option<(nat, nat)> {
    let payload = cursor.skip(16);
    let at = first_at(payload, ':');
    let tail = payload.skip(at + 1);
    if at >= payload.len() || tail.contains(':') {
        None
    } else {
        match (unsigned(payload.take(at), 16, u64::MAX as nat), unsigned(tail, 10, usize::MAX as nat)) {
            (Some(generation), Some(offset)) => Some((generation, offset)),
            _ => None,
        }
    }
}

/// Where the page that a cursor stands for starts, in a catalog of `total` resources.
pub open spec fn cursor_offset(cursor: Seq<char>, generation: nat, total: nat) -> Result<
    nat,
    Seq<char>,
> {
    if !starts_with(cursor, "pix-captures-v2:"@) {
        Err("Unrecognized resources/list cursor"@)
    } else {
        match cursor_parts(cursor) {
            None => Err("Malformed resources/list cursor"@),
            Some((found, offset)) => if found != generation {
                Err("resources/list cursor expired because the capture catalog changed"@)
            } else if offset == 0 || offset % RESOURCE_PAGE_SIZE as nat != 0 || offset >= total {
                Err("resources/list cursor was not emitted for this catalog"@)
            } else {
                Ok(offset)
            },
        }
    }
}

fn split_cursor(cursor: &str) -> (r: Option<(u64, u64)>)
    requires
        starts_with(cursor@, "pix-captures-v2:"@),
    ensures
        match (r, cursor_parts(cursor@)) {
            (Some((generation, offset)), Some((g, o))) => generation == g && offset == o,
            (None, None) => true,
            _ => false,
        },
{
    proof {
        reveal_strlit("pix-captures-v2:");
    }
    let chars = chars_of(cursor);
    let ghost payload = cursor@.skip(16);
    let mut at: usize = 16;
    while at < chars.len() && chars[at] != ':'
        invariant
            16 <= at <= chars.len(),
            chars@ == cursor@,
            payload == cursor@.skip(16),
            forall|k: int| 0 <= k < at - 16 ==> payload[k] != ':',
        decreases chars.len() - at,
    {
        assert(payload[at - 16] == cursor@[at as int]);
        at += 1;
    }
    proof {
        assert(at < chars.len() ==> payload[at - 16] == ':');
        lemma_first_at_is(payload, ':', at - 16);
    }
    if at == chars.len() {
        return None;
    }
    let head = sub_text(&chars, 16, at);
    let tail = sub_text(&chars, at + 1, chars.len());
    assert(head@ =~= payload.take(at - 16));
    assert(tail@ =~= payload.skip(at - 16 + 1));
    if contains_char(&tail, ':') {
        return None;
    }
    match (parse_unsigned(&head, 16, u64::MAX), parse_unsigned(&tail, 10, usize::MAX as u64)) {
        (Some(generation), Some(offset)) => Some((generation, offset)),
        _ => None,
    }
}

/// Where the requested page of the catalog starts. Without a cursor it is the first page; a
/// cursor must be one that was given out for this catalog.
pub fn resource_cursor_offset(cursor: Option<&str>, generation: u64, total: usize) -> (r: Result<
    usize,
    Failure,
>)
    ensures
        match cursor {
            None => r == Ok::<usize, Failure>(0),
            Some(text) => match (r, cursor_offset(text@, generation as nat, total as nat)) {
                (Ok(offset), Ok(expected)) => offset == expected,
                (Err(e), Err(message)) => e.message@ == message,
                _ => false,
            },
        },
{
    let text = match cursor {
        Some(text) => text,
        None => {
            return Ok(0);
        },
    };
    if !starts_with_text(text, "pix-captures-v2:") {
        return Err(Failure::of("Unrecognized resources/list cursor"));
    }
    match split_cursor(text) {
        None => Err(Failure::of("Malformed resources/list cursor")),
        Some((found, offset)) => {
            if found != generation {
                return Err(
                    Failure::of(
                        "resources/list cursor expired because the capture catalog changed",
                    ),
                );
            }
            let offset: usize = offset as usize;
            if offset == 0 || offset % RESOURCE_PAGE_SIZE != 0 || offset >= total {
                return Err(
                    Failure::of("resources/list cursor was not emitted for this catalog"),
                );
            }
            Ok(offset)
        },
    }
}

proof fn lemma_pow16_16()
    ensures
        pow16(16) == 0x1_0000_0000_0000_0000,
{
    reveal_with_fuel(pow16, 17);
}

/// The parts of a cursor that was given out are those it was made of.
proof fn lemma_cursor_parts(generation: u64, offset: usize)
    ensures
        starts_with(cursor_text(generation as nat, offset as nat), "pix-captures-v2:"@),
        cursor_parts(cursor_text(generation as nat, offset as nat)) == Some(
            (generation as nat, offset as nat),
        ),
{
    reveal_strlit("pix-captures-v2:");
    reveal_strlit(":");
    let prefix = "pix-captures-v2:"@;
    let head = hex_digits(generation as nat, 16);
    let tail = decimal(offset as nat);
    let cursor = cursor_text(generation as nat, offset as nat);
    lemma_pow16_16();
    hex_reads_back(generation as nat, 16, u64::MAX as nat);
    decimal_reads_back(offset as nat, usize::MAX as nat);
    let payload = cursor.skip(16);
    assert(cursor.subrange(0, 16) =~= prefix);
    assert(payload =~= head + seq![':'] + tail);
    assert forall|k: int| 0 <= k < 16 implies payload[k] != ':' by {
        assert(payload[k] == head[k]);
        assert(head.contains(head[k]));
    }
    lemma_first_at_is(payload, ':', 16);
    assert(payload.take(16) =~= head);
    assert(payload.skip(17) =~= tail);
}

/// A cursor that is given out with a page is accepted for the same catalog, and stands for the
/// page that follows.
pub proof fn given_cursor_is_accepted(generation: u64, offset: usize, total: usize)
    requires
        0 < offset < total,
        offset % RESOURCE_PAGE_SIZE == 0,
    ensures
        cursor_offset(
            cursor_text(generation as nat, offset as nat),
            generation as nat,
            total as nat,
        ) == Ok::<nat, Seq<char>>(offset as nat),
{
    lemma_cursor_parts(generation, offset);
}

/// A cursor that was given out for another state of the catalog is refused as expired.
pub proof fn stale_cursor_is_refused(
    generation: u64,
    other_generation: u64,
    offset: usize,
    total: usize,
)
    requires
        generation != other_generation,
    ensures
        cursor_offset(
            cursor_text(other_generation as nat, offset as nat),
            generation as nat,
            total as nat,
        ) == Err::<nat, Seq<char>>(
            "resources/list cursor expired because the capture catalog changed"@,
        ),
{
    lemma_cursor_parts(other_generation, offset);
}

/// Where a page of the catalog ends.
pub open spec fn page_end(offset: nat, total: nat) -> nat {
    least(offset + RESOURCE_PAGE_SIZE as nat, total)
}

/// The end of the page that starts at `offset`, and the cursor of the next page, if there is
/// one.
pub fn resource_page(generation: u64, offset: usize, total: usize) -> (r: (usize, Option<String>))
    requires
        offset <= total,
    ensures
        r.0 == page_end(offset as nat, total as nat),
        optional_text(r.1) == if r.0 < total {
            Some(cursor_text(generation as nat, r.0 as nat))
        } else {
            None
        },
{
    let end: usize = if total - offset > RESOURCE_PAGE_SIZE {
        offset + RESOURCE_PAGE_SIZE
    } else {
        total
    };
    let next = if end < total {
        Some(resource_cursor(generation, end))
    } else {
        None
    };
    (end, next)
}

/// Following the cursors from the first page on reaches every page: the cursor of a page that
/// starts at an accepted offset is accepted, stands for the end of that page, and the pages come
/// to an end.
pub proof fn cursors_lead_through_the_catalog(generation: u64, offset: usize, total: usize)
    requires
        offset < total,
        offset % RESOURCE_PAGE_SIZE == 0,
        page_end(offset as nat, total as nat) < total,
    ensures
        ({
            let end = page_end(offset as nat, total as nat);
            &&& cursor_offset(
                cursor_text(generation as nat, end),
                generation as nat,
                total as nat,
            ) == Ok::<nat, Seq<char>>(end)
            &&& end % RESOURCE_PAGE_SIZE as nat == 0
            &&& offset < end < total
        }),
{
    let end = page_end(offset as nat, total as nat) as usize;
    given_cursor_is_accepted(generation, end, total);
}

// ---------------------------------------------------------------------------
// Output paths
// ---------------------------------------------------------------------------

/// The argument that a call must have before its output path is asked for, and the question.
pub open spec fn elicitation(name: Seq<char>) -> Option<(Seq<char>, Seq<char>)> {
    if name == "pix_gpu_capture"@ {
        Some(("process_id"@, "Where should the GPU capture (.wpix) be saved?"@))
    } else if name == "pix_gpu_capture_launch"@ {
        Some(("exe_path"@, "Where should the GPU capture (.wpix) be saved?"@))
    } else if name == "pix_timing_capture"@ {
        Some(("process_id"@, "Where should the timing capture (.wpix) be saved?"@))
    } else if name == "pix_get_screenshot"@ {
        Some(("capture_path"@, "Where should the screenshot PNG be saved?"@))
    } else if name == "pix_capture_and_analyze"@ {
        Some(("exe_path"@, "Where should the capture (.wpix) be saved?"@))
    } else {
        None
    }
}

/// The argument that a call of the tool `name` must have before its output path is asked for,
/// and the question.
pub fn output_path_elicitation(name: &str) -> (r: Option<(&'static str, &'static str)>)
    ensures
        match (r, elicitation(name@)) {
            (Some((argument, prompt)), Some((a, p))) => argument@ == a && prompt@ == p,
            (None, None) => true,
            _ => false,
        },
{
    if same_text(name, "pix_gpu_capture") {
        Some(("process_id", "Where should the GPU capture (.wpix) be saved?"))
    } else if same_text(name, "pix_gpu_capture_launch") {
        Some(("exe_path", "Where should the GPU capture (.wpix) be saved?"))
    } else if same_text(name, "pix_timing_capture") {
        Some(("process_id", "Where should the timing capture (.wpix) be saved?"))
    } else if same_text(name, "pix_get_screenshot") {
        Some(("capture_path", "Where should the screenshot PNG be saved?"))
    } else if same_text(name, "pix_capture_and_analyze") {
        Some(("exe_path", "Where should the capture (.wpix) be saved?"))
    } else {
        None
    }
}

/// The value of an argument of a call, as far as it matters here.
#[derive(Debug)]
pub enum ArgumentValue {
    Missing,
    Null,
    Text(String),
    Number,
    Other,
}

/// Whether the output path of a call is asked for: what the call needs besides is there, and an
/// output path is not.
pub open spec fn asks_for_output_path(required: ArgumentValue, output_path: ArgumentValue) -> bool {
    &&& match required {
        ArgumentValue::Text(text) => !is_blank(text@),
        ArgumentValue::Number => true,
        _ => false,
    }
    &&& output_path is Missing || output_path is Null
}

/// Whether the output path of a call is asked for before it is run.
pub fn preflight_output_path(required: &ArgumentValue, output_path: &ArgumentValue) -> (r: bool)
    ensures
        r == asks_for_output_path(*required, *output_path),
{
    let has_required = match required {
        ArgumentValue::Text(text) => !blank(text),
        ArgumentValue::Number => true,
        _ => false,
    };
    let is_open = match output_path {
        ArgumentValue::Missing => true,
        ArgumentValue::Null => true,
        _ => false,
    };
    has_required && is_open
}

/// What is done about the output path of a call.
#[derive(Debug)]
pub enum OutputPathStep {
    /// It is given.
    Use(String),
    /// The client is asked for it.
    Ask,
    /// The call is refused.
    Refuse(Failure),
}

/// Decides what is done about the output path of a call.
pub fn resolve_output_path(provided: Option<String>, client_has_forms: bool) -> (r: OutputPathStep)
    ensures
        match provided {
            Some(path) => if is_blank(path@) {
                r matches OutputPathStep::Refuse(e) && e.message@
                    == "output_path must not be empty."@
            } else {
                r == OutputPathStep::Use(path)
            },
            None => if client_has_forms {
                r is Ask
            } else {
                r matches OutputPathStep::Refuse(e) && e.message@
                    == "output_path is required; the client does not support form elicitation. Please pass output_path."@
            },
        },
{
    match provided {
        Some(path) => {
            if blank(&path) {
                return OutputPathStep::Refuse(Failure::of("output_path must not be empty."));
            }
            OutputPathStep::Use(path)
        },
        None => {
            if !client_has_forms {
                return OutputPathStep::Refuse(
                    Failure::of(
                        "output_path is required; the client does not support form elicitation. Please pass output_path.",
                    ),
                );
            }
            OutputPathStep::Ask
        },
    }
}

/// What came of asking the client.
#[derive(Debug)]
pub enum ElicitationReply {
    /// The form could not be described.
    NoSchema { error: String },
    /// The question could not be sent.
    NotSent { error: String },
    /// The call was cancelled meanwhile.
    CallCancelled,
    /// There was no answer in time.
    TimedOut,
    /// The connection was closed meanwhile.
    Closed,
    /// The client answered with an error.
    Failed { error: String },
    /// The client answered something else.
    Unexpected,
    /// The form was sent back with this path.
    Accepted { output_path: String },
    /// The form was sent back empty.
    AcceptedWithoutContent,
    /// The form was sent back with something that cannot be read.
    AcceptedUnreadable { error: String },
    Declined,
    Cancelled,
    UnsupportedAction,
}

/// The output path that came of asking, or what is said without one.
pub open spec fn elicited_path(reply: ElicitationReply) -> Result<Seq<char>, Seq<char>> {
    match reply {
        ElicitationReply::NoSchema { error } => Err(
            "Could not build the output-path form schema: "@ + error@,
        ),
        ElicitationReply::NotSent { error } => Err(
            "Could not request output_path from the client: "@ + error@,
        ),
        ElicitationReply::CallCancelled => Err(
            "Output-path elicitation was cancelled with the tool request."@,
        ),
        ElicitationReply::TimedOut => Err(
            "Output-path elicitation timed out after 5 minutes. Please pass output_path."@,
        ),
        ElicitationReply::Closed => Err(
            "The client connection closed during output-path elicitation."@,
        ),
        ElicitationReply::Failed { error } => Err("Output-path elicitation failed: "@ + error@),
        ElicitationReply::Unexpected => Err(
            "Client returned an unexpected response to output-path elicitation."@,
        ),
        ElicitationReply::Accepted { output_path } => if is_blank(output_path@) {
            Err("The elicited output_path was empty. Please provide a valid path."@)
        } else {
            Ok(output_path@)
        },
        ElicitationReply::AcceptedWithoutContent => Err(
            "The client accepted output-path elicitation without providing content. Please pass output_path."@,
        ),
        ElicitationReply::AcceptedUnreadable { error } => Err(
            "The elicited output_path could not be parsed: "@ + error@,
        ),
        ElicitationReply::Declined => Err(
            "Output-path elicitation was declined. Please pass output_path."@,
        ),
        ElicitationReply::Cancelled => Err(
            "Output-path elicitation was cancelled. Please pass output_path."@,
        ),
        ElicitationReply::UnsupportedAction => Err(
            "Client returned an unsupported output-path elicitation action. Please pass output_path."@,
        ),
    }
}

fn failure_with(text: &str, error: &str) -> (r: Failure)
    ensures
        r.message@ == text@ + error@,
{
    let mut message = text.to_string();
    message.append(error);
    Failure::new(message)
}

/// The output path that came of asking the client.
pub fn path_from_reply(reply: ElicitationReply) -> (r: Result<String, Failure>)
    ensures
        match (r, elicited_path(reply)) {
            (Ok(path), Ok(expected)) => path@ == expected,
            (Err(e), Err(message)) => e.message@ == message,
            _ => false,
        },
{
    match reply {
        ElicitationReply::NoSchema { error } => Err(
            failure_with("Could not build the output-path form schema: ", &error),
        ),
        ElicitationReply::NotSent { error } => Err(
            failure_with("Could not request output_path from the client: ", &error),
        ),
        ElicitationReply::CallCancelled => Err(
            Failure::of("Output-path elicitation was cancelled with the tool request."),
        ),
        ElicitationReply::TimedOut => Err(
            Failure::of(
                "Output-path elicitation timed out after 5 minutes. Please pass output_path.",
            ),
        ),
        ElicitationReply::Closed => Err(
            Failure::of("The client connection closed during output-path elicitation."),
        ),
        ElicitationReply::Failed { error } => Err(
            failure_with("Output-path elicitation failed: ", &error),
        ),
        ElicitationReply::Unexpected => Err(
            Failure::of("Client returned an unexpected response to output-path elicitation."),
        ),
        ElicitationReply::Accepted { output_path } => {
            if blank(&output_path) {
                return Err(
                    Failure::of(
                        "The elicited output_path was empty. Please provide a valid path.",
                    ),
                );
            }
            Ok(output_path)
        },
        ElicitationReply::AcceptedWithoutContent => Err(
            Failure::of(
                "The client accepted output-path elicitation without providing content. Please pass output_path.",
            ),
        ),
        ElicitationReply::AcceptedUnreadable { error } => Err(
            failure_with("The elicited output_path could not be parsed: ", &error),
        ),
        ElicitationReply::Declined => Err(
            Failure::of("Output-path elicitation was declined. Please pass output_path."),
        ),
        ElicitationReply::Cancelled => Err(
            Failure::of("Output-path elicitation was cancelled. Please pass output_path."),
        ),
        ElicitationReply::UnsupportedAction => Err(
            Failure::of(
                "Client returned an unsupported output-path elicitation action. Please pass output_path.",
            ),
        ),
    }
}

// ---------------------------------------------------------------------------
// Errors
// ---------------------------------------------------------------------------

/// The error of the protocol that a failed read is answered with.
#[derive(Debug, Clone, Copy, PartialEq, Eq, Structural)]
pub enum ErrorKind {
    InvalidParams,
    ResourceNotFound,
    InternalError,
}

/// How a failed read is answered: what was wrong with the request is told, an internal error is
/// not.
pub fn map_resource_error(error: ResourceReadError) -> (r: (ErrorKind, String))
    ensures
        match error {
            ResourceReadError::InvalidRequest(message) => r == (ErrorKind::InvalidParams, message),
            ResourceReadError::NotFound(message) => r == (ErrorKind::ResourceNotFound, message),
            ResourceReadError::Internal(_) => r.0 == ErrorKind::InternalError && r.1@
                == "Failed to read PIX resource"@,
        },
{
    match error {
        ResourceReadError::InvalidRequest(message) => (ErrorKind::InvalidParams, message),
        ResourceReadError::NotFound(message) => (ErrorKind::ResourceNotFound, message),
        ResourceReadError::Internal(_) => (
            ErrorKind::InternalError,
            "Failed to read PIX resource".to_string(),
        ),
    }
}

/// How a prompt whose captures were not found is answered: what was wrong with the request is
/// told, an internal error is not.
pub fn map_prompt_error(error: ResourceReadError) -> (r: (ErrorKind, String))
    ensures
        match error {
            ResourceReadError::InvalidRequest(message)
            | ResourceReadError::NotFound(message) => r == (ErrorKind::InvalidParams, message),
            ResourceReadError::Internal(_) => r.0 == ErrorKind::InternalError && r.1@
                == "Could not validate the PIX capture for this prompt"@,
        },
{
    match error {
        ResourceReadError::InvalidRequest(message) => (ErrorKind::InvalidParams, message),
        ResourceReadError::NotFound(message) => (ErrorKind::InvalidParams, message),
        ResourceReadError::Internal(_) => (
            ErrorKind::InternalError,
            "Could not validate the PIX capture for this prompt".to_string(),
        ),
    }
}

/// Why a call did not get to run.
#[derive(Debug, Clone, Copy, PartialEq, Eq, Structural)]
pub enum ToolPermitError {
    Busy,
    Cancelled,
    Closed,
}

/// How a call that did not get to run is answered. The first result says that it is the answer of
/// the tool, not an error of the protocol.
pub fn permit_refused(error: ToolPermitError) -> (r: (bool, String))
    ensures
        r.0 == (error == ToolPermitError::Busy),
        r.1@ == match error {
            ToolPermitError::Busy => "Server is busy: timed out waiting for a tool execution slot"@,
            ToolPermitError::Cancelled => "Tool request cancelled"@,
            ToolPermitError::Closed => "Tool concurrency limiter is unavailable"@,
        },
{
    match error {
        ToolPermitError::Busy => (
            true,
            "Server is busy: timed out waiting for a tool execution slot".to_string(),
        ),
        ToolPermitError::Cancelled => (false, "Tool request cancelled".to_string()),
        ToolPermitError::Closed => (false, "Tool concurrency limiter is unavailable".to_string()),
    }
}

} // verus!
