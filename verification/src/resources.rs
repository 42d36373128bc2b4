//! Captures as resources: `capture://` addresses and what they name.

use crate::capture::CaptureEntry;
use crate::events::least;
use crate::failure::Failure;
use crate::numbers::digit_value;
use crate::order::{
    comes_before, sort, sorted, sorted_is_an_ordered_rearrangement, text_less, text_less_is_total,
    text_less_is_transitive, Precedence,
};
use crate::paths::{
    find_last_component, has_extension, is_single_name, last_component, name_has_extension,
    names_file, stem, stem_of,
};
use crate::pixtool::{seconds_or_zero, CaptureInfo, FileTime, MAX_CAPTURE_DIRECTORY_ENTRIES};
use crate::text::{
    blank, chars_have_part, chars_of, concat3, contains_char, eq_ignoring_case, first_at, has_part,
    is_blank, join, joined, lemma_first_at, lemma_texts_push, pieces, same_ignoring_case, same_text,
    split_on, starts_with, starts_with_text, sub_text, texts, unicode_lower,
};
use vstd::prelude::*;
use vstd::string::*;
use vstd::utf8::*;

verus! {

/// How many captures the list resource holds at most.
pub const RESOURCE_CAPTURE_LIMIT: usize = 500;

/// How many bytes the identifier of a capture may take.
pub const MAX_CAPTURE_ID_BYTES: usize = 1024;

/// Why a resource was not read.
#[derive(Debug)]
pub enum ResourceReadError {
    /// The address names no resource.
    InvalidRequest(String),
    /// The resource does not exist.
    NotFound(String),
    /// Something else failed.
    Internal(String),
}

/// What a `capture://` address names.
#[derive(Debug)]
pub enum CaptureResource {
    List,
    Capture(String),
    Events(String),
    Counters(String),
    Metadata(String),
}

/// What an address names, by its contents.
pub enum Resource {
    List,
    Capture(Seq<char>),
    Events(Seq<char>),
    Counters(Seq<char>),
    Metadata(Seq<char>),
}

impl View for CaptureResource {
    type V = Resource;

    open spec fn view(&self) -> Resource {
        match self {
            CaptureResource::List => Resource::List,
            CaptureResource::Capture(id) => Resource::Capture(id@),
            CaptureResource::Events(id) => Resource::Events(id@),
            CaptureResource::Counters(id) => Resource::Counters(id@),
            CaptureResource::Metadata(id) => Resource::Metadata(id@),
        }
    }
}

// ---------------------------------------------------------------------------
// Percent-encoding
// ---------------------------------------------------------------------------

/// Whether `b` is an ASCII letter or digit.
pub open spec fn is_alphanumeric_byte(b: u8) -> bool {
    48 <= b <= 57 || 65 <= b <= 90 || 97 <= b <= 122
}

/// The digit for four bits, in upper case.
pub open spec fn upper_hex(n: int) -> char {
    if n < 10 {
        (48 + n) as u8 as char
    } else {
        (55 + n) as u8 as char
    }
}

/// One byte: a letter or digit as it is, anything else as `%` and two digits.
pub open spec fn encoded_byte(b: u8) -> Seq<char> {
    if is_alphanumeric_byte(b) {
        seq![b as char]
    } else {
        seq!['%', upper_hex(b as int / 16), upper_hex(b as int % 16)]
    }
}

pub open spec fn encoded_bytes(bytes: Seq<u8>) -> Seq<char>
    decreases bytes.len(),
{
    if bytes.len() == 0 {
        seq![]
    } else {
        encoded_byte(bytes[0]) + encoded_bytes(bytes.subrange(1, bytes.len() as int))
    }
}

/// A text with every byte but the ASCII letters and digits percent-encoded.
pub open spec fn percent_encoded(s: Seq<char>) -> Seq<char> {
    encoded_bytes(encode_utf8(s))
}

/// `percent_encoding::utf8_percent_encode` with `NON_ALPHANUMERIC`: every byte of the text but
/// the ASCII letters and digits as `%` and two hexadecimal digits in upper case.
#[verifier::external_body]
pub(crate) fn percent_encode(s: &str) -> (r: String)
    ensures
        r@ == percent_encoded(s@),
{
    percent_encoding::utf8_percent_encode(s, percent_encoding::NON_ALPHANUMERIC).to_string()
}

/// What four bits the byte stands for as a hexadecimal digit.
pub open spec fn hex_byte(b: u8) -> Option<nat> {
    if b < 128 {
        digit_value(b as char, 16)
    } else {
        None
    }
}

/// Bytes with every `%` that two hexadecimal digits follow replaced by the byte they stand for.
pub open spec fn percent_decoded(bytes: Seq<u8>) -> Seq<u8>
    decreases bytes.len(),
{
    if bytes.len() == 0 {
        seq![]
    } else if bytes[0] == 37 && bytes.len() >= 3 && hex_byte(bytes[1]) is Some && hex_byte(bytes[2])
        is Some {
        seq![(hex_byte(bytes[1])->0 * 16 + hex_byte(bytes[2])->0) as u8] + percent_decoded(
            bytes.subrange(3, bytes.len() as int),
        )
    } else {
        seq![bytes[0]] + percent_decoded(bytes.subrange(1, bytes.len() as int))
    }
}

/// `percent_encoding::percent_decode_str` and `PercentDecode::decode_utf8`: the text of the
/// bytes that a text stands for, where they are valid UTF-8.
#[verifier::external_body]
fn percent_decode(s: &str) -> (r: Option<String>)
    ensures
        r is Some == valid_utf8(percent_decoded(encode_utf8(s@))),
        r matches Some(text) ==> text@ == decode_utf8(percent_decoded(encode_utf8(s@))),
{
    let decoded = percent_encoding::percent_decode_str(s).decode_utf8().ok()?;
    Some(decoded.into_owned())
}

/// Whether two hexadecimal digits follow every `%` from `at` on.
pub open spec fn escapes_are_valid(bytes: Seq<u8>, at: int) -> bool
    decreases bytes.len() - at,
{
    if at >= bytes.len() || at < 0 {
        true
    } else if bytes[at] == 37 {
        at + 2 < bytes.len() && hex_byte(bytes[at + 1]) is Some && hex_byte(bytes[at + 2]) is Some
            && escapes_are_valid(bytes, at + 3)
    } else {
        escapes_are_valid(bytes, at + 1)
    }
}

/// The text that a segment of an address stands for.
pub open spec fn decoded_segment(segment: Seq<char>) -> Result<Seq<char>, Seq<char>> {
    let bytes = encode_utf8(segment);
    if !escapes_are_valid(bytes, 0) {
        Err("Invalid percent-encoding in capture URI segment: "@ + segment)
    } else if !valid_utf8(percent_decoded(bytes)) {
        Err("Percent-encoded capture URI segment is not valid UTF-8: "@ + segment)
    } else {
        Ok(decode_utf8(percent_decoded(bytes)))
    }
}

fn is_hex_byte(b: u8) -> (r: bool)
    ensures
        r == hex_byte(b) is Some,
{
    (48 <= b && b <= 57) || (65 <= b && b <= 70) || (97 <= b && b <= 102)
}

fn check_escapes(bytes: &[u8]) -> (r: bool)
    ensures
        r == escapes_are_valid(bytes@, 0),
{
    let mut at: usize = 0;
    while at < bytes.len()
        invariant
            at <= bytes.len(),
            escapes_are_valid(bytes@, 0) == escapes_are_valid(bytes@, at as int),
        decreases bytes.len() - at,
    {
        if bytes[at] == 37 {
            if bytes.len() - at < 3 || !is_hex_byte(bytes[at + 1]) || !is_hex_byte(bytes[at + 2]) {
                return false;
            }
            at += 3;
        } else {
            at += 1;
        }
    }
    true
}

/// The text that a segment of an address stands for.
pub fn decode_uri_segment(segment: &str) -> (r: Result<String, Failure>)
    ensures
        match (r, decoded_segment(segment@)) {
            (Ok(text), Ok(expected)) => text@ == expected,
            (Err(e), Err(message)) => e.message@ == message,
            _ => false,
        },
{
    if !check_escapes(segment.as_bytes()) {
        let mut message = "Invalid percent-encoding in capture URI segment: ".to_string();
        message.append(segment);
        return Err(Failure::new(message));
    }
    match percent_decode(segment) {
        Some(text) => Ok(text),
        None => {
            let mut message =
                "Percent-encoded capture URI segment is not valid UTF-8: ".to_string();
            message.append(segment);
            Err(Failure::new(message))
        },
    }
}

// ---------------------------------------------------------------------------
// Addresses
// ---------------------------------------------------------------------------

/// What is wrong with the identifier of a capture, if anything: it must be one name, never a
/// path.
pub open spec fn capture_id_problem(id: Seq<char>) -> Option<Seq<char>> {
    if is_blank(id) {
        Some("Capture ID must not be empty"@)
    } else if !is_single_name(id) || !names_file(id) {
        Some("Capture ID must be a filename or filename stem, not a path: "@ + id)
    } else {
        None
    }
}

/// Refuses an identifier that is empty or a path.
pub fn validate_capture_id(id: &str) -> (r: Result<(), Failure>)
    ensures
        match capture_id_problem(id@) {
            None => r is Ok,
            Some(problem) => r is Err && r->Err_0.message@ == problem,
        },
{
    if blank(id) {
        return Err(Failure::of("Capture ID must not be empty"));
    }
    if contains_char(id, '/') || contains_char(id, '\\') || contains_char(id, ':') || id.is_empty()
        || same_text(id, ".") || same_text(id, "..") {
        let mut message =
            "Capture ID must be a filename or filename stem, not a path: ".to_string();
        message.append(id);
        return Err(Failure::new(message));
    }
    Ok(())
}

/// The first error among decoded segments, or their texts.
pub open spec fn decoded_segments(segments: Seq<Seq<char>>) -> Result<Seq<Seq<char>>, Seq<char>>
    decreases segments.len(),
{
    if segments.len() == 0 {
        Ok(seq![])
    } else {
        match decoded_segments(segments.drop_last()) {
            Err(message) => Err(message),
            Ok(before) => match decoded_segment(segments.last()) {
                Err(message) => Err(message),
                Ok(text) => Ok(before.push(text)),
            },
        }
    }
}

/// What the decoded segments of an address name.
pub open spec fn named_resource(parts: Seq<Seq<char>>) -> Result<Resource, Seq<char>> {
    if parts.len() == 1 && (parts[0].len() == 0 || parts[0] == "list"@) {
        Ok(Resource::List)
    } else if parts.len() == 1 {
        match capture_id_problem(parts[0]) {
            Some(problem) => Err(problem),
            None => Ok(Resource::Capture(parts[0])),
        }
    } else if parts.len() == 2 && (parts[1] == "events"@ || parts[1] == "counters"@ || parts[1]
        == "metadata"@) {
        match capture_id_problem(parts[0]) {
            Some(problem) => Err(problem),
            None => Ok(
                if parts[1] == "events"@ {
                    Resource::Events(parts[0])
                } else if parts[1] == "counters"@ {
                    Resource::Counters(parts[0])
                } else {
                    Resource::Metadata(parts[0])
                },
            ),
        }
    } else {
        Err("Unsupported capture resource URI path"@)
    }
}

/// What an address names, or why it names nothing.
pub open spec fn resource_at(uri: Seq<char>) -> Result<Resource, Seq<char>> {
    if !starts_with(uri, "capture://"@) {
        Err("Capture URI must start with capture://"@)
    } else {
        match decoded_segments(pieces(uri.skip(10), '/')) {
            Err(message) => Err(message),
            Ok(parts) => named_resource(parts),
        }
    }
}

/// Whether `r` is what an address names.
pub open spec fn is_resource(
    r: Result<CaptureResource, Failure>,
    expected: Result<Resource, Seq<char>>,
) -> bool {
    match (r, expected) {
        (Ok(resource), Ok(model)) => resource@ == model,
        (Err(e), Err(message)) => e.message@ == message,
        _ => false,
    }
}

proof fn lemma_decoding_stops(segments: Seq<Seq<char>>, n: int)
    requires
        0 <= n <= segments.len(),
        decoded_segments(segments.take(n)) is Err,
    ensures
        decoded_segments(segments) == decoded_segments(segments.take(n)),
    decreases segments.len(),
{
    if n < segments.len() {
        assert(segments.drop_last().take(n) =~= segments.take(n));
        lemma_decoding_stops(segments.drop_last(), n);
    } else {
        assert(segments.take(n) =~= segments);
    }
}

fn decode_segments(segments: &Vec<String>) -> (r: Result<Vec<String>, Failure>)
    ensures
        match (r, decoded_segments(texts(segments@))) {
            (Ok(parts), Ok(expected)) => texts(parts@) == expected,
            (Err(e), Err(message)) => e.message@ == message,
            _ => false,
        },
{
    broadcast use lemma_texts_push;

    let ghost model = texts(segments@);
    let mut parts: Vec<String> = Vec::new();
    let mut i: usize = 0;
    assert(decoded_segments(model.take(0)) == Ok::<Seq<Seq<char>>, Seq<char>>(seq![]));
    assert(texts(parts@) =~= seq![]);
    while i < segments.len()
        invariant
            i <= segments.len(),
            model == texts(segments@),
            decoded_segments(model.take(i as int)) == Ok::<Seq<Seq<char>>, Seq<char>>(
                texts(parts@),
            ),
        decreases segments.len() - i,
    {
        proof {
            assert(model.take(i + 1).drop_last() =~= model.take(i as int));
            assert(model.take(i + 1).last() == segments@[i as int]@);
        }
        match decode_uri_segment(&segments[i]) {
            Ok(text) => {
                let ghost before = texts(parts@);
                let ghost found = text@;
                parts.push(text);
                assert(texts(parts@) == before.push(found));
                assert(decoded_segments(model.take(i + 1)) == Ok::<Seq<Seq<char>>, Seq<char>>(
                    before.push(found),
                ));
            },
            Err(e) => {
                proof {
                    lemma_decoding_stops(model, i + 1);
                }
                return Err(e);
            },
        }
        i += 1;
    }
    assert(model.take(i as int) =~= model);
    Ok(parts)
}

/// What the decoded segments of an address name.
pub fn resource_of_parts(parts: &Vec<String>) -> (r: Result<CaptureResource, Failure>)
    ensures
        is_resource(r, named_resource(texts(parts@))),
{
    let ghost model = texts(parts@);
    assert(model.len() == parts.len());
    if parts.len() == 1 {
        assert(model[0] == parts@[0]@);
        if parts[0].as_str().is_empty() || same_text(&parts[0], "list") {
            return Ok(CaptureResource::List);
        }
        validate_capture_id(&parts[0])?;
        return Ok(CaptureResource::Capture(parts[0].clone()));
    }
    if parts.len() == 2 {
        assert(model[0] == parts@[0]@ && model[1] == parts@[1]@);
        let events = same_text(&parts[1], "events");
        let counters = same_text(&parts[1], "counters");
        let metadata = same_text(&parts[1], "metadata");
        if events || counters || metadata {
            validate_capture_id(&parts[0])?;
            let id = parts[0].clone();
            return Ok(
                if events {
                    CaptureResource::Events(id)
                } else if counters {
                    CaptureResource::Counters(id)
                } else {
                    CaptureResource::Metadata(id)
                },
            );
        }
    }
    Err(Failure::of("Unsupported capture resource URI path"))
}

/// Reads a `capture://` address.
pub fn parse_capture_uri(uri: &str) -> (r: Result<CaptureResource, Failure>)
    ensures
        is_resource(r, resource_at(uri@)),
{
    if !starts_with_text(uri, "capture://") {
        return Err(Failure::of("Capture URI must start with capture://"));
    }
    proof {
        reveal_strlit("capture://");
    }
    let chars = chars_of(uri);
    let path = sub_text(&chars, 10, chars.len());
    assert(uri@.skip(10) =~= path@);
    let segments = split_on(&path, '/');
    match decode_segments(&segments) {
        Err(e) => Err(e),
        Ok(parts) => resource_of_parts(&parts),
    }
}

// ---------------------------------------------------------------------------
// Writing an address and reading it
// ---------------------------------------------------------------------------

proof fn lemma_upper_hex(n: int)
    requires
        0 <= n < 16,
    ensures
        hex_byte(upper_hex(n) as u8) == Some(n as nat),
        (upper_hex(n) as u32) < 128,
        upper_hex(n) != '/',
{
}

/// Encoded bytes are ASCII without a slash, are escaped correctly, and stand for the bytes.
proof fn lemma_encoded_bytes(bytes: Seq<u8>)
    ensures
        is_ascii_chars(encoded_bytes(bytes)),
        !encoded_bytes(bytes).contains('/'),
        ({
            let text = encoded_bytes(bytes);
            let raw = Seq::new(text.len(), |i: int| text[i] as u8);
            &&& percent_decoded(raw) == bytes
            &&& escapes_are_valid(raw, 0)
        }),
    decreases bytes.len(),
{
    let text = encoded_bytes(bytes);
    let raw = Seq::new(text.len(), |i: int| text[i] as u8);
    if bytes.len() == 0 {
        assert(raw =~= seq![]);
        assert(percent_decoded(raw) =~= bytes);
    } else {
        let b = bytes[0];
        let rest = bytes.subrange(1, bytes.len() as int);
        let tail = encoded_bytes(rest);
        let raw_tail = Seq::new(tail.len(), |i: int| tail[i] as u8);
        let head = encoded_byte(b);
        lemma_encoded_bytes(rest);
        lemma_upper_hex(b as int / 16);
        lemma_upper_hex(b as int % 16);
        let n = head.len() as int;
        assert forall|i: int| 0 <= i < text.len() implies (#[trigger] text[i] as u32) < 128
            && text[i] != '/' by {
            if i >= n {
                assert(text[i] == tail[i - n]);
                assert(tail.contains(tail[i - n]));
            } else {
                assert(text[i] == head[i]);
            }
        }
        assert(raw.subrange(n, raw.len() as int) =~= raw_tail) by {
            assert forall|i: int| 0 <= i < raw_tail.len() implies #[trigger] raw_tail[i] == raw[i
                + n] by {
                assert(text[i + n] == tail[i]);
            }
        }
        lemma_escapes_shift(raw, raw_tail, n);
        assert(raw[0] == head[0] as u8);
        if is_alphanumeric_byte(b) {
            assert(raw[0] == b);
            assert(percent_decoded(raw) =~= seq![b] + rest);
        } else {
            assert(raw[1] == head[1] as u8 && raw[2] == head[2] as u8);
            assert(raw[0] == 37);
            assert(percent_decoded(raw) =~= seq![b] + rest);
        }
        assert(bytes =~= seq![b] + rest);
    }
}

/// Validity of escapes goes by what is left.
proof fn lemma_escapes_shift(whole: Seq<u8>, rest: Seq<u8>, n: int)
    requires
        0 <= n <= whole.len(),
        rest == whole.subrange(n, whole.len() as int),
    ensures
        escapes_are_valid(whole, n) == escapes_are_valid(rest, 0),
{
    lemma_escapes_shift_at(whole, rest, n, 0);
}

proof fn lemma_escapes_shift_at(whole: Seq<u8>, rest: Seq<u8>, n: int, at: int)
    requires
        0 <= n <= whole.len(),
        0 <= at,
        rest == whole.subrange(n, whole.len() as int),
    ensures
        escapes_are_valid(whole, n + at) == escapes_are_valid(rest, at),
    decreases rest.len() - at,
{
    if at < rest.len() {
        assert(rest[at] == whole[n + at]);
        if at + 1 < rest.len() {
            assert(rest[at + 1] == whole[n + at + 1]);
        }
        if at + 2 < rest.len() {
            assert(rest[at + 2] == whole[n + at + 2]);
            lemma_escapes_shift_at(whole, rest, n, at + 3);
        }
        lemma_escapes_shift_at(whole, rest, n, at + 1);
    }
}

/// A text that was percent-encoded is one segment, and stands for the text.
pub proof fn encoded_segment_is_read_back(s: Seq<char>)
    ensures
        decoded_segment(percent_encoded(s)) == Ok::<Seq<char>, Seq<char>>(s),
        pieces(percent_encoded(s), '/') == seq![percent_encoded(s)],
{
    let bytes = encode_utf8(s);
    let text = percent_encoded(s);
    lemma_encoded_bytes(bytes);
    is_ascii_chars_encode_utf8(text);
    assert(encode_utf8(text) =~= Seq::new(text.len(), |i: int| text[i] as u8));
    encode_utf8_valid_utf8(s);
    encode_utf8_decode_utf8(s);
    lemma_first_at(text, '/');
    if first_at(text, '/') < text.len() {
        assert(text.contains(text[first_at(text, '/')]));
    }
}

/// The address of a capture names that capture. The one name that is not its own address is
/// `list`, which stands for the list of captures.
pub proof fn capture_address_names_the_capture(id: Seq<char>)
    requires
        capture_id_problem(id) is None,
        id != "list"@,
    ensures
        resource_at("capture://"@ + percent_encoded(id)) == Ok::<Resource, Seq<char>>(
            Resource::Capture(id),
        ),
{
    reveal_strlit("capture://");
    let uri = "capture://"@ + percent_encoded(id);
    let segment = percent_encoded(id);
    encoded_segment_is_read_back(id);
    assert(uri.subrange(0, 10) =~= "capture://"@);
    assert(uri.skip(10) =~= segment);
    let segments = seq![segment];
    assert(segments.drop_last() =~= seq![]);
    assert(decoded_segments(segments.drop_last()) == Ok::<Seq<Seq<char>>, Seq<char>>(seq![]));
    assert(segments.last() == segment);
    assert(decoded_segments(segments) == Ok::<Seq<Seq<char>>, Seq<char>>(
        Seq::<Seq<char>>::empty().push(id),
    ));
    let parts = Seq::<Seq<char>>::empty().push(id);
    assert(parts.len() == 1 && parts[0] == id);
}

/// Whether a text is made of small letters.
spec fn is_word(s: Seq<char>) -> bool {
    forall|i: int| 0 <= i < s.len() ==> 'a' <= #[trigger] s[i] <= 'z'
}

/// Small letters are their own percent-encoding.
proof fn lemma_plain_segment(s: Seq<char>)
    requires
        is_word(s),
    ensures
        decoded_segment(s) == Ok::<Seq<char>, Seq<char>>(s),
        pieces(s, '/') == seq![s],
{
    is_ascii_chars_encode_utf8(s);
    let bytes = encode_utf8(s);
    assert(bytes =~= Seq::new(s.len(), |i: int| s[i] as u8));
    lemma_letters_are_kept(bytes);
    assert(percent_encoded(s) =~= s);
    encoded_segment_is_read_back(s);
}

proof fn lemma_letters_are_kept(bytes: Seq<u8>)
    requires
        forall|i: int| 0 <= i < bytes.len() ==> 97 <= #[trigger] bytes[i] <= 122,
    ensures
        encoded_bytes(bytes) == Seq::new(bytes.len(), |i: int| bytes[i] as char),
    decreases bytes.len(),
{
    if bytes.len() > 0 {
        let rest = bytes.subrange(1, bytes.len() as int);
        assert forall|i: int| 0 <= i < rest.len() implies 97 <= #[trigger] rest[i] <= 122 by {
            assert(rest[i] == bytes[i + 1]);
        }
        lemma_letters_are_kept(rest);
        assert(97 <= bytes[0] <= 122);
    }
    assert(encoded_bytes(bytes) =~= Seq::new(bytes.len(), |i: int| bytes[i] as char));
}

/// The segments of the address of a capture with a word behind it.
proof fn lemma_address_with_word(id: Seq<char>, word: Seq<char>)
    requires
        is_word(word),
    ensures
        resource_at("capture://"@ + percent_encoded(id) + "/"@ + word) == named_resource(
            seq![id, word],
        ),
{
    reveal_strlit("capture://");
    reveal_strlit("/");
    let segment = percent_encoded(id);
    let uri = "capture://"@ + segment + "/"@ + word;
    encoded_segment_is_read_back(id);
    lemma_plain_segment(word);
    assert(uri.subrange(0, 10) =~= "capture://"@);
    let path = uri.skip(10);
    assert(path =~= segment + "/"@ + word);
    lemma_first_at(segment, '/');
    lemma_first_at(path, '/');
    let n = segment.len() as int;
    if first_at(segment, '/') < n {
        assert(pieces(segment, '/').len() >= 2) by {
            assert(pieces(segment.subrange(first_at(segment, '/') + 1, n), '/').len() >= 1);
        }
    }
    assert(path[n] == '/');
    assert(first_at(path, '/') == n) by {
        let at = first_at(path, '/');
        if at < n {
            assert(segment[at] == path[at]);
        }
    }
    assert(path.subrange(0, n) =~= segment);
    assert(path.subrange(n + 1, path.len() as int) =~= word);
    let segments = pieces(path, '/');
    assert(segments =~= seq![segment, word]);
    let one = segments.drop_last();
    assert(one =~= seq![segment]);
    assert(one.drop_last() =~= seq![]);
    assert(decoded_segments(one.drop_last()) == Ok::<Seq<Seq<char>>, Seq<char>>(seq![]));
    assert(one.last() == segment);
    assert(decoded_segments(one) == Ok::<Seq<Seq<char>>, Seq<char>>(
        Seq::<Seq<char>>::empty().push(id),
    ));
    assert(segments.last() == word);
    assert(decoded_segments(segments) == Ok::<Seq<Seq<char>>, Seq<char>>(
        Seq::<Seq<char>>::empty().push(id).push(word),
    ));
    assert(Seq::<Seq<char>>::empty().push(id).push(word) =~= seq![id, word]);
}

/// The address of a capture with `/events`, `/counters` or `/metadata` behind it names the events,
/// the counters or the metadata of that capture.
pub proof fn capture_address_leads_to_its_parts(id: Seq<char>)
    requires
        capture_id_problem(id) is None,
    ensures
        resource_at("capture://"@ + percent_encoded(id) + "/events"@) == Ok::<Resource, Seq<char>>(
            Resource::Events(id),
        ),
        resource_at("capture://"@ + percent_encoded(id) + "/counters"@) == Ok::<
            Resource,
            Seq<char>,
        >(Resource::Counters(id)),
        resource_at("capture://"@ + percent_encoded(id) + "/metadata"@) == Ok::<
            Resource,
            Seq<char>,
        >(Resource::Metadata(id)),
{
    lemma_words();
    lemma_address_with_word(id, "events"@);
    lemma_address_with_word(id, "counters"@);
    lemma_address_with_word(id, "metadata"@);
    let start = "capture://"@ + percent_encoded(id);
    assert(start + "/events"@ =~= start + "/"@ + "events"@);
    assert(start + "/counters"@ =~= start + "/"@ + "counters"@);
    assert(start + "/metadata"@ =~= start + "/"@ + "metadata"@);
}

/// The words behind the address of a capture are different words of letters.
proof fn lemma_words()
    ensures
        is_word("events"@) && is_word("counters"@) && is_word("metadata"@),
        "events"@ != "counters"@ && "events"@ != "metadata"@ && "counters"@ != "metadata"@,
        "/events"@ == "/"@ + "events"@,
        "/counters"@ == "/"@ + "counters"@,
        "/metadata"@ == "/"@ + "metadata"@,
{
    reveal_strlit("/");
    reveal_strlit("events");
    reveal_strlit("counters");
    reveal_strlit("metadata");
    reveal_strlit("/events");
    reveal_strlit("/counters");
    reveal_strlit("/metadata");
    assert("/events"@ =~= "/"@ + "events"@);
    assert("/counters"@ =~= "/"@ + "counters"@);
    assert("/metadata"@ =~= "/"@ + "metadata"@);
    assert("events"@[0] == 'e' && "counters"@[0] == 'c' && "metadata"@[0] == 'm');
}

/// No address names a capture outside its directory: the identifier in it is never a path.
pub proof fn addresses_never_name_a_path(uri: Seq<char>)
    ensures
        resource_at(uri) matches Ok(resource) ==> match resource {
            Resource::List => true,
            Resource::Capture(id) | Resource::Events(id) | Resource::Counters(id)
            | Resource::Metadata(id) => is_single_name(id) && names_file(id) && !is_blank(id),
        },
{
}

// ---------------------------------------------------------------------------
// Finding a capture
// ---------------------------------------------------------------------------

/// A capture file in the directory.
#[derive(Debug)]
pub struct CaptureFile {
    pub name: String,
    pub path: String,
}

/// Whether `a` comes before `b`: by name in lower case, then by name.
pub open spec fn name_before(a: Seq<char>, b: Seq<char>) -> bool {
    text_less(unicode_lower(a), unicode_lower(b)) || (unicode_lower(a) == unicode_lower(b)
        && text_less(a, b))
}

/// Files by name.
pub struct ByName;

impl Precedence for ByName {
    type Item = CaptureFile;

    open spec fn leq(a: CaptureFile, b: CaptureFile) -> bool {
        !name_before(b.name@, a.name@)
    }

    proof fn total(a: CaptureFile, b: CaptureFile) {
        text_less_is_total(unicode_lower(a.name@), unicode_lower(b.name@));
        text_less_is_total(a.name@, b.name@);
    }

    proof fn transitive(a: CaptureFile, b: CaptureFile, c: CaptureFile) {
        let x = unicode_lower(a.name@);
        let y = unicode_lower(b.name@);
        let z = unicode_lower(c.name@);
        text_less_is_total(x, y);
        text_less_is_total(y, z);
        text_less_is_total(x, z);
        text_less_is_total(a.name@, b.name@);
        text_less_is_total(b.name@, c.name@);
        text_less_is_total(a.name@, c.name@);
        if text_less(x, y) && text_less(y, z) {
            text_less_is_transitive(x, y, z);
        }
        if text_less(a.name@, b.name@) && text_less(b.name@, c.name@) {
            text_less_is_transitive(a.name@, b.name@, c.name@);
        }
    }

    fn may_precede(a: &CaptureFile, b: &CaptureFile) -> (r: bool) {
        let x = a.name.to_lowercase();
        let y = b.name.to_lowercase();
        !(comes_before(&y, &x) || (same_text(&y, &x) && comes_before(&b.name, &a.name)))
    }
}

/// Whether a name is that of a `.wpix` file.
pub open spec fn is_wpix_name(name: Seq<char>) -> bool {
    names_file(name) && has_extension(name, "wpix"@)
}

pub fn has_wpix_extension(name: &str) -> (r: bool)
    ensures
        r == is_wpix_name(name@),
{
    !name.is_empty() && !same_text(name, ".") && !same_text(name, "..") && name_has_extension(
        name,
        "wpix",
    )
}

/// What an identifier asks for: the stem of a file name, or itself.
pub open spec fn requested_stem(id: Seq<char>) -> Seq<char> {
    if is_wpix_name(id) {
        stem(id)
    } else {
        id
    }
}

pub fn stem_requested_by(id: &str) -> (r: String)
    ensures
        r@ == requested_stem(id@),
{
    if has_wpix_extension(id) {
        stem_of(id)
    } else {
        id.to_string()
    }
}

/// Whether a name has exactly the stem, up to the case of ASCII letters. Of a name with slashes
/// only the last component counts.
pub open spec fn has_stem(name: Seq<char>, wanted: Seq<char>) -> bool {
    match last_component(name) {
        Some(file) => same_ignoring_case(stem(file), wanted),
        None => false,
    }
}

pub fn name_has_stem(name: &str, wanted: &str) -> (r: bool)
    ensures
        r == has_stem(name@, wanted@),
{
    match find_last_component(name) {
        Some(file) => eq_ignoring_case(&stem_of(&file), wanted),
        None => false,
    }
}

/// Whether the stem of a name, in lower case, contains the needle. Of a name with slashes only the
/// last component counts.
pub open spec fn stem_contains(name: Seq<char>, needle: Seq<char>) -> bool {
    match last_component(name) {
        Some(file) => has_part(unicode_lower(stem(file)), needle),
        None => false,
    }
}

pub fn name_stem_contains(name: &str, needle: &Vec<char>) -> (r: bool)
    ensures
        r == stem_contains(name@, needle@),
{
    match find_last_component(name) {
        Some(file) => chars_have_part(&chars_of(&stem_of(&file).to_lowercase()), needle),
        None => false,
    }
}

/// The files with exactly the stem.
pub open spec fn exact_matches(files: Seq<CaptureFile>, wanted: Seq<char>) -> Seq<CaptureFile>
    decreases files.len(),
{
    if files.len() == 0 {
        seq![]
    } else if has_stem(files.last().name@, wanted) {
        exact_matches(files.drop_last(), wanted).push(files.last())
    } else {
        exact_matches(files.drop_last(), wanted)
    }
}

/// The files whose stem contains the needle.
pub open spec fn partial_matches(files: Seq<CaptureFile>, needle: Seq<char>) -> Seq<CaptureFile>
    decreases files.len(),
{
    if files.len() == 0 {
        seq![]
    } else if stem_contains(files.last().name@, needle) {
        partial_matches(files.drop_last(), needle).push(files.last())
    } else {
        partial_matches(files.drop_last(), needle)
    }
}

pub open spec fn file_names(files: Seq<CaptureFile>) -> Seq<Seq<char>> {
    files.map_values(|file: CaptureFile| file.name@)
}

/// The path of the one match, or what is said of none or several.
pub open spec fn unique_match(id: Seq<char>, matches: Seq<CaptureFile>) -> Result<
    Seq<char>,
    Seq<char>,
> {
    if matches.len() == 1 {
        Ok(matches[0].path@)
    } else if matches.len() == 0 {
        Err("Capture not found: "@ + id)
    } else {
        Err(
            "Capture ID is ambiguous: "@ + id + ". Matches: "@ + joined(file_names(matches), ", "@),
        )
    }
}

/// The path of the capture that an identifier names among `files`: one file with the stem, or
/// else, unless a file name was given, one file whose stem contains it.
pub open spec fn capture_named(files: Seq<CaptureFile>, id: Seq<char>) -> Result<
    Seq<char>,
    Seq<char>,
> {
    capture_among(sorted::<ByName>(files), id)
}

/// The path of the capture that an identifier names among files in the order of their names.
pub open spec fn capture_among(ordered: Seq<CaptureFile>, id: Seq<char>) -> Result<
    Seq<char>,
    Seq<char>,
> {
    let exact = exact_matches(ordered, requested_stem(id));
    match capture_id_problem(id) {
        Some(problem) => Err(problem),
        None => if exact.len() > 0 {
            unique_match(id, exact)
        } else if is_wpix_name(id) {
            Err("Capture not found: "@ + id)
        } else {
            unique_match(id, partial_matches(ordered, unicode_lower(requested_stem(id))))
        },
    }
}

fn copy_file(file: &CaptureFile) -> (r: CaptureFile)
    ensures
        r == *file,
{
    CaptureFile { name: file.name.clone(), path: file.path.clone() }
}

/// The one match, or why there is none.
pub fn require_unique_match(id: &str, matches: &Vec<CaptureFile>) -> (r: Result<String, Failure>)
    ensures
        match (r, unique_match(id@, matches@)) {
            (Ok(path), Ok(expected)) => path@ == expected,
            (Err(e), Err(message)) => e.message@ == message,
            _ => false,
        },
{
    broadcast use lemma_texts_push;

    if matches.len() == 1 {
        return Ok(matches[0].path.clone());
    }
    if matches.len() == 0 {
        let mut message = "Capture not found: ".to_string();
        message.append(id);
        return Err(Failure::new(message));
    }
    let ghost model = file_names(matches@);
    let mut names: Vec<String> = Vec::new();
    let mut i: usize = 0;
    assert(texts(names@) =~= model.take(0));
    while i < matches.len()
        invariant
            i <= matches.len(),
            model == file_names(matches@),
            texts(names@) == model.take(i as int),
        decreases matches.len() - i,
    {
        names.push(matches[i].name.clone());
        assert(model.take(i + 1) =~= model.take(i as int).push(model[i as int]));
        i += 1;
    }
    assert(model.take(i as int) =~= model);
    let mut message = concat3("Capture ID is ambiguous: ", id, ". Matches: ");
    message.append(&join(&names, ", "));
    Err(Failure::new(message))
}

/// Finds the capture that an identifier names among the captures of a directory.
pub fn find_capture_by_id(files: Vec<CaptureFile>, id: &str) -> (r: Result<String, Failure>)
    ensures
        match (r, capture_named(files@, id@)) {
            (Ok(path), Ok(expected)) => path@ == expected,
            (Err(e), Err(message)) => e.message@ == message,
            _ => false,
        },
{
    find_in_order(&sort::<ByName>(files), id)
}

/// Finds the capture that an identifier names among files in the order of their names.
fn find_in_order(ordered: &Vec<CaptureFile>, id: &str) -> (r: Result<String, Failure>)
    ensures
        match (r, capture_among(ordered@, id@)) {
            (Ok(path), Ok(expected)) => path@ == expected,
            (Err(e), Err(message)) => e.message@ == message,
            _ => false,
        },
{
    validate_capture_id(id)?;
    let wanted = stem_requested_by(id);
    let mut exact: Vec<CaptureFile> = Vec::new();
    let mut i: usize = 0;
    assert(ordered@.take(0) =~= seq![]);
    while i < ordered.len()
        invariant
            i <= ordered.len(),
            exact@ == exact_matches(ordered@.take(i as int), wanted@),
        decreases ordered.len() - i,
    {
        proof {
            assert(ordered@.take(i + 1).drop_last() =~= ordered@.take(i as int));
            assert(ordered@.take(i + 1).last() == ordered@[i as int]);
        }
        if name_has_stem(&ordered[i].name, &wanted) {
            exact.push(copy_file(&ordered[i]));
        }
        i += 1;
    }
    assert(ordered@.take(i as int) =~= ordered@);
    if exact.len() > 0 {
        return require_unique_match(id, &exact);
    }
    if has_wpix_extension(id) {
        let mut message = "Capture not found: ".to_string();
        message.append(id);
        return Err(Failure::new(message));
    }
    let needle = chars_of(&wanted.to_lowercase());
    let mut partial: Vec<CaptureFile> = Vec::new();
    let mut j: usize = 0;
    assert(ordered@.take(0) =~= seq![]);
    while j < ordered.len()
        invariant
            j <= ordered.len(),
            partial@ == partial_matches(ordered@.take(j as int), needle@),
        decreases ordered.len() - j,
    {
        proof {
            assert(ordered@.take(j + 1).drop_last() =~= ordered@.take(j as int));
            assert(ordered@.take(j + 1).last() == ordered@[j as int]);
        }
        if name_stem_contains(&ordered[j].name, &needle) {
            partial.push(copy_file(&ordered[j]));
        }
        j += 1;
    }
    assert(ordered@.take(j as int) =~= ordered@);
    require_unique_match(id, &partial)
}

/// Finds the captures that two identifiers name. The first that names none is reported.
pub fn find_two_captures(files: Vec<CaptureFile>, first: &str, second: &str) -> (r: Result<
    (String, String),
    Failure,
>)
    ensures
        match capture_named(files@, first@) {
            Err(message) => r is Err && r->Err_0.message@ == message,
            Ok(a) => match capture_named(files@, second@) {
                Err(message) => r is Err && r->Err_0.message@ == message,
                Ok(b) => r is Ok && r->Ok_0.0@ == a && r->Ok_0.1@ == b,
            },
        },
{
    let ordered = sort::<ByName>(files);
    match find_in_order(&ordered, first) {
        Err(e) => Err(e),
        Ok(a) => match find_in_order(&ordered, second) {
            Err(e) => Err(e),
            Ok(b) => Ok((a, b)),
        },
    }
}

/// An entry of the directory of captures.
#[derive(Debug)]
pub struct ScannedEntry {
    pub name: String,
    pub is_file: bool,
    /// The file that the entry leads to.
    pub file: CaptureFile,
    /// Whether that file is in the directory.
    pub is_inside: bool,
}

/// The capture files among the entries of a directory.
pub open spec fn files_among(entries: Seq<ScannedEntry>) -> Seq<CaptureFile>
    decreases entries.len(),
{
    if entries.len() == 0 {
        seq![]
    } else {
        let before = files_among(entries.drop_last());
        let entry = entries.last();
        if entry.is_file && is_wpix_name(entry.name@) && entry.is_inside {
            before.push(entry.file)
        } else {
            before
        }
    }
}

/// The capture files of a directory. What leads out of the directory is left out.
pub fn capture_files(entries: Vec<ScannedEntry>) -> (r: Result<Vec<CaptureFile>, Failure>)
    ensures
        if entries.len() > MAX_CAPTURE_DIRECTORY_ENTRIES {
            r is Err && r->Err_0.message@
                == "Capture directory contains more than 20000 entries; choose a narrower directory"@
        } else {
            r is Ok && r->Ok_0@ == files_among(entries@)
        },
{
    if entries.len() > MAX_CAPTURE_DIRECTORY_ENTRIES {
        return Err(
            Failure::of(
                "Capture directory contains more than 20000 entries; choose a narrower directory",
            ),
        );
    }
    let mut files: Vec<CaptureFile> = Vec::new();
    let mut i: usize = 0;
    while i < entries.len()
        invariant
            i <= entries.len(),
            files@ == files_among(entries@.take(i as int)),
        decreases entries.len() - i,
    {
        proof {
            assert(entries@.take(i + 1).drop_last() =~= entries@.take(i as int));
            assert(entries@.take(i + 1).last() == entries@[i as int]);
        }
        let entry = &entries[i];
        if entry.is_file && has_wpix_extension(&entry.name) && entry.is_inside {
            files.push(copy_file(&entry.file));
        }
        i += 1;
    }
    assert(entries@.take(i as int) =~= entries@);
    Ok(files)
}

/// A capture that is found is a file in the directory, whatever the identifier and whatever else
/// the directory holds.
pub proof fn found_capture_is_inside(entries: Seq<ScannedEntry>, id: Seq<char>)
    ensures
        capture_named(files_among(entries), id) matches Ok(path) ==> exists|i: int|
            0 <= i < entries.len() && (#[trigger] entries[i]).is_file && entries[i].is_inside
                && is_wpix_name(entries[i].name@) && entries[i].file.path@ == path,
{
    if let Ok(path) = capture_named(files_among(entries), id) {
        named_capture_is_in_the_directory(files_among(entries), id);
        let k = choose|k: int|
            0 <= k < files_among(entries).len() && (#[trigger] files_among(entries)[k]).path@
                == path;
        lemma_file_is_an_entry(entries, k);
    }
}

proof fn lemma_file_is_an_entry(entries: Seq<ScannedEntry>, k: int)
    requires
        0 <= k < files_among(entries).len(),
    ensures
        exists|i: int|
            0 <= i < entries.len() && (#[trigger] entries[i]).is_file && entries[i].is_inside
                && is_wpix_name(entries[i].name@) && entries[i].file == files_among(entries)[k],
    decreases entries.len(),
{
    let rest = entries.drop_last();
    if k < files_among(rest).len() {
        lemma_file_is_an_entry(rest, k);
        let i = choose|i: int|
            0 <= i < rest.len() && (#[trigger] rest[i]).is_file && rest[i].is_inside
                && is_wpix_name(rest[i].name@) && rest[i].file == files_among(rest)[k];
        assert(entries[i] == rest[i]);
    } else {
        assert(entries[entries.len() - 1].file == files_among(entries)[k]);
    }
}

// ---------------------------------------------------------------------------
// Contents
// ---------------------------------------------------------------------------

/// What a resource holds.
#[derive(Debug)]
pub enum ResourcePayload {
    List {
        captures: Vec<CaptureEntry>,
        count: usize,
        total_count: usize,
        truncated: bool,
        directory: String,
    },
    Capture {
        id: String,
        path: String,
        name: Option<String>,
        size_bytes: u64,
        modified: Option<u64>,
        note: String,
    },
    /// A capture whose contents a tool gives.
    Pointer { id: String, path: String, note: String },
}

/// Whether an entry of the list resource shows a capture.
pub open spec fn entry_shows(entry: CaptureEntry, capture: CaptureInfo) -> bool {
    &&& entry.path@ == capture.path@
    &&& entry.name@ == capture.name@
    &&& entry.size_bytes == capture.size_bytes
    &&& entry.modified == match capture.modified {
        Some(time) => Some(time.seconds_or_zero()),
        None => None,
    }
}

/// A resource whose capture has been found.
#[derive(Debug)]
pub enum FoundResource {
    List,
    Capture { id: String, path: String },
    Events { id: String, path: String },
    Counters { id: String, path: String },
}

/// Whether `r` is the resource that the address names among `files`, or says why there is none.
pub open spec fn is_found(
    r: Result<FoundResource, ResourceReadError>,
    uri: Seq<char>,
    files: Seq<CaptureFile>,
) -> bool {
    match resource_at(uri) {
        Err(_) => r matches Err(ResourceReadError::InvalidRequest(message)) && message@
            == "Invalid capture URI: "@ + uri,
        Ok(Resource::List) => r matches Ok(FoundResource::List),
        Ok(Resource::Capture(id)) | Ok(Resource::Metadata(id)) => match capture_named(files, id) {
            Ok(path) => r matches Ok(FoundResource::Capture { id: shown, path: found }) && shown@
                == id && found@ == path,
            Err(problem) => r matches Err(ResourceReadError::NotFound(message)) && message@
                == problem,
        },
        Ok(Resource::Events(id)) => match capture_named(files, id) {
            Ok(path) => r matches Ok(FoundResource::Events { id: shown, path: found }) && shown@
                == id && found@ == path,
            Err(problem) => r matches Err(ResourceReadError::NotFound(message)) && message@
                == problem,
        },
        Ok(Resource::Counters(id)) => match capture_named(files, id) {
            Ok(path) => r matches Ok(FoundResource::Counters { id: shown, path: found }) && shown@
                == id && found@ == path,
            Err(problem) => r matches Err(ResourceReadError::NotFound(message)) && message@
                == problem,
        },
    }
}

/// Finds the resource that an address names among the captures of the directory.
pub fn find_resource(uri: &str, files: Vec<CaptureFile>) -> (r: Result<
    FoundResource,
    ResourceReadError,
>)
    ensures
        is_found(r, uri@, files@),
{
    let resource = match parse_capture_uri(uri) {
        Ok(resource) => resource,
        Err(_) => {
            let mut message = "Invalid capture URI: ".to_string();
            message.append(uri);
            return Err(ResourceReadError::InvalidRequest(message));
        },
    };
    match resource {
        CaptureResource::List => Ok(FoundResource::List),
        CaptureResource::Capture(id) => match find_capture_by_id(files, &id) {
            Ok(path) => Ok(FoundResource::Capture { id, path }),
            Err(e) => Err(ResourceReadError::NotFound(e.message)),
        },
        CaptureResource::Metadata(id) => match find_capture_by_id(files, &id) {
            Ok(path) => Ok(FoundResource::Capture { id, path }),
            Err(e) => Err(ResourceReadError::NotFound(e.message)),
        },
        CaptureResource::Events(id) => match find_capture_by_id(files, &id) {
            Ok(path) => Ok(FoundResource::Events { id, path }),
            Err(e) => Err(ResourceReadError::NotFound(e.message)),
        },
        CaptureResource::Counters(id) => match find_capture_by_id(files, &id) {
            Ok(path) => Ok(FoundResource::Counters { id, path }),
            Err(e) => Err(ResourceReadError::NotFound(e.message)),
        },
    }
}

/// The list resource: the first captures of the directory.
pub fn list_payload(captures: &Vec<CaptureInfo>, directory: String) -> (r: ResourcePayload)
    ensures
        r matches ResourcePayload::List {
            captures: entries,
            count,
            total_count,
            truncated,
            directory: shown,
        } && {
            &&& count == least(captures.len() as nat, RESOURCE_CAPTURE_LIMIT as nat)
            &&& entries.len() == count
            &&& forall|i: int| 0 <= i < count ==> entry_shows(#[trigger] entries@[i], captures@[i])
            &&& total_count == captures.len()
            &&& truncated == (count < total_count)
            &&& shown == directory
        },
{
    let count: usize = if captures.len() < RESOURCE_CAPTURE_LIMIT {
        captures.len()
    } else {
        RESOURCE_CAPTURE_LIMIT
    };
    let mut entries: Vec<CaptureEntry> = Vec::new();
    let mut i: usize = 0;
    while i < count
        invariant
            i <= count <= captures.len(),
            entries.len() == i,
            forall|k: int| 0 <= k < i ==> entry_shows(#[trigger] entries@[k], captures@[k]),
        decreases count - i,
    {
        let capture = &captures[i];
        let modified: Option<u64> = match capture.modified {
            Some(time) => Some(seconds_or_zero(time)),
            None => None,
        };
        entries.push(
            CaptureEntry {
                path: capture.path.clone(),
                name: capture.name.clone(),
                size_bytes: capture.size_bytes,
                modified,
            },
        );
        i += 1;
    }
    ResourcePayload::List {
        captures: entries,
        count,
        total_count: captures.len(),
        truncated: count < captures.len(),
        directory,
    }
}

/// The resource of a capture.
pub fn capture_payload(
    id: String,
    path: String,
    name: Option<String>,
    size_bytes: u64,
    modified: Option<FileTime>,
) -> (r: ResourcePayload)
    ensures
        r matches ResourcePayload::Capture {
            id: shown_id,
            path: shown_path,
            name: shown_name,
            size_bytes: shown_size,
            modified: shown_time,
            note,
        } && {
            &&& shown_id == id
            &&& shown_path == path
            &&& shown_name == name
            &&& shown_size == size_bytes
            &&& shown_time == match modified {
                Some(time) => Some(time.seconds_or_zero()),
                None => None,
            }
            &&& note@ == "Open in PIX for detailed analysis, or use pix_analyze_capture"@
        },
{
    let modified: Option<u64> = match modified {
        Some(time) => Some(seconds_or_zero(time)),
        None => None,
    };
    ResourcePayload::Capture {
        id,
        path,
        name,
        size_bytes,
        modified,
        note: "Open in PIX for detailed analysis, or use pix_analyze_capture".to_string(),
    }
}

/// The resource that points to the events of a capture, or to its counters.
pub fn pointer_payload(id: String, path: String, to_events: bool) -> (r: ResourcePayload)
    ensures
        r matches ResourcePayload::Pointer { id: shown_id, path: shown_path, note } && {
            &&& shown_id == id
            &&& shown_path == path
            &&& note@ == if to_events {
                "Use the pix_get_event_list tool with this capture path to extract events."@
            } else {
                "Use the pix_list_counters tool with this capture path to list counters."@
            }
        },
{
    let note = if to_events {
        "Use the pix_get_event_list tool with this capture path to extract events.".to_string()
    } else {
        "Use the pix_list_counters tool with this capture path to list counters.".to_string()
    };
    ResourcePayload::Pointer { id, path, note }
}

proof fn lemma_matches_are_files(files: Seq<CaptureFile>, wanted: Seq<char>, needle: Seq<char>)
    ensures
        forall|i: int|
            0 <= i < exact_matches(files, wanted).len() ==> files.contains(
                #[trigger] exact_matches(files, wanted)[i],
            ),
        forall|i: int|
            0 <= i < partial_matches(files, needle).len() ==> files.contains(
                #[trigger] partial_matches(files, needle)[i],
            ),
    decreases files.len(),
{
    if files.len() > 0 {
        let head = files.drop_last();
        lemma_matches_are_files(head, wanted, needle);
        assert(files[files.len() - 1] == files.last());
        assert forall|i: int| 0 <= i < exact_matches(files, wanted).len() implies files.contains(
            #[trigger] exact_matches(files, wanted)[i],
        ) by {
            let all = exact_matches(head, wanted);
            if i < all.len() {
                assert(exact_matches(files, wanted)[i] == all[i]);
                assert(head.contains(all[i]));
                let k = choose|k: int| 0 <= k < head.len() && head[k] == all[i];
                assert(files[k] == all[i]);
            }
        }
        assert forall|i: int| 0 <= i < partial_matches(files, needle).len() implies files.contains(
            #[trigger] partial_matches(files, needle)[i],
        ) by {
            let all = partial_matches(head, needle);
            if i < all.len() {
                assert(partial_matches(files, needle)[i] == all[i]);
                assert(head.contains(all[i]));
                let k = choose|k: int| 0 <= k < head.len() && head[k] == all[i];
                assert(files[k] == all[i]);
            }
        }
    }
}

/// The capture that an identifier names is one of the captures of the directory.
pub proof fn named_capture_is_in_the_directory(files: Seq<CaptureFile>, id: Seq<char>)
    ensures
        capture_named(files, id) matches Ok(path) ==> exists|i: int|
            0 <= i < files.len() && (#[trigger] files[i]).path@ == path,
{
    broadcast use vstd::seq_lib::group_to_multiset_ensures;

    if let Ok(path) = capture_named(files, id) {
        let ordered = sorted::<ByName>(files);
        let wanted = requested_stem(id);
        sorted_is_an_ordered_rearrangement::<ByName>(files);
        lemma_matches_are_files(ordered, wanted, unicode_lower(wanted));
        let exact = exact_matches(ordered, wanted);
        let found = if exact.len() > 0 {
            exact[0]
        } else {
            partial_matches(ordered, unicode_lower(wanted))[0]
        };
        assert(ordered.contains(found));
        assert(files.to_multiset().contains(found));
        assert(files.contains(found));
        let i = choose|i: int| 0 <= i < files.len() && files[i] == found;
        assert(files[i].path@ == path);
    }
}

} // verus!
