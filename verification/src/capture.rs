//! Captures: where they are saved, and the lists of them.

use crate::events::least;
use crate::failure::Failure;
use crate::paths::{
    begins_with_server, extension, is_settled, last_at, last_name, lemma_last_at, lemma_last_name,
    lemma_share_stays, named_file, optional_has_extension, path_extension, replaced_extension,
    with_extension,
};
use crate::pixtool::{CaptureInfo, CaptureResult};
use crate::text::{
    blank, concat3, eq_ignoring_case, is_blank, is_white_space, optional_text, same_ignoring_case,
};
use vstd::prelude::*;
use vstd::string::*;

verus! {

/// A request for a capture of a running process.
#[derive(Debug)]
pub struct GpuCaptureArgs {
    pub process_id: u32,
    pub output_path: Option<String>,
}

/// A request to launch an application and capture it.
#[derive(Debug)]
pub struct GpuCaptureLaunchArgs {
    pub exe_path: String,
    pub args: Option<Vec<String>>,
    pub output_path: Option<String>,
    pub working_dir: Option<String>,
    pub frames: Option<u32>,
}

/// A request for a timing capture of a running process.
#[derive(Debug)]
pub struct TimingCaptureArgs {
    pub process_id: u32,
    pub output_path: Option<String>,
    pub duration_ms: Option<u32>,
}

/// A request for a list of captures.
#[derive(Debug)]
pub struct ListCapturesArgs {
    pub directory: Option<String>,
    pub offset: Option<usize>,
    pub limit: Option<usize>,
}

/// A request to open a capture in PIX.
#[derive(Debug)]
pub struct OpenCaptureArgs {
    pub capture_path: String,
}

/// What a request for a capture is answered.
#[derive(Debug)]
pub struct CaptureReport {
    pub success: bool,
    pub message: String,
    pub output_path: String,
    pub pixtool_output: String,
    pub note: Option<String>,
}

/// A capture in a list.
#[derive(Debug)]
pub struct CaptureEntry {
    pub path: String,
    pub name: String,
    pub size_bytes: u64,
    /// Seconds since the Unix epoch.
    pub modified: Option<u64>,
}

/// What a request for a list of captures is answered.
#[derive(Debug)]
pub struct CaptureListReport {
    pub success: bool,
    pub directory: String,
    /// How many captures there are, returned or not.
    pub total_count: usize,
    pub offset: usize,
    pub returned: usize,
    pub truncated: bool,
    pub next_offset: Option<usize>,
    /// The same as `returned`.
    pub count: usize,
    pub captures: Vec<CaptureEntry>,
}

/// An answer that is a message.
#[derive(Debug)]
pub struct MessageReport {
    pub success: bool,
    pub message: String,
}

// ---------------------------------------------------------------------------
// Output paths
// ---------------------------------------------------------------------------

/// Where a capture goes: a file name without an extension gets `.wpix`, and one with another
/// extension is refused.
pub open spec fn wpix_output(
    raw: Seq<char>,
    label: Seq<char>,
    is_directory: bool,
) -> Result<Seq<char>, Seq<char>> {
    if is_blank(raw) {
        Err(label + " must not be empty"@)
    } else if is_directory {
        Err(label + " must name a file, not a directory: "@ + raw)
    } else if named_file(raw) is None {
        Ok(raw)
    } else {
        match extension(last_name(raw)) {
            None => Ok(raw + ".wpix"@),
            Some(text) => if same_ignoring_case(text, "wpix"@) {
                Ok(raw)
            } else {
                Err(label + " must end with .wpix: "@ + raw)
            },
        }
    }
}

/// Where a capture goes. A path without an extension gets `.wpix`; a directory, and a path with
/// another extension, is refused. `is_directory` says that the path is that of a directory.
pub fn normalize_wpix_output(raw: &str, label: &str, is_directory: bool) -> (r: Result<
    String,
    Failure,
>)
    ensures
        is_blank(raw@) ==> r is Err && r->Err_0.message@ == label@ + " must not be empty"@,
        !is_blank(raw@) && is_directory ==> r is Err && r->Err_0.message@ == label@
            + " must name a file, not a directory: "@ + raw@,
        !is_blank(raw@) && !is_directory ==> (r matches Err(e) ==> e.message@ == label@
            + " must end with .wpix: "@ + raw@),
        is_settled(raw@) ==> match (r, wpix_output(raw@, label@, is_directory)) {
            (Ok(path), Ok(expected)) => path@ == expected,
            (Err(e), Err(message)) => e.message@ == message,
            _ => false,
        },
{
    if blank(raw) {
        let mut message = label.to_string();
        message.append(" must not be empty");
        return Err(Failure::new(message));
    }
    if is_directory {
        return Err(
            Failure::new(concat3(label, " must name a file, not a directory: ", raw)),
        );
    }
    proof {
        reveal_strlit("wpix");
        reveal_strlit(".wpix");
        lemma_added_extension(raw@);
    }
    match path_extension(raw) {
        None => Ok(with_extension(raw, "wpix")),
        Some(text) => {
            if !eq_ignoring_case(&text, "wpix") {
                return Err(Failure::new(concat3(label, " must end with .wpix: ", raw)));
            }
            Ok(raw.to_string())
        },
    }
}

/// Where a capture goes; a request that says nothing is refused.
pub fn require_output_path(output_path: &Option<String>, is_directory: bool) -> (r: Result<
    String,
    Failure,
>)
    ensures
        match output_path {
            None => r is Err && r->Err_0.message@
                == "output_path is required: provide a path to save the .wpix capture"@,
            Some(raw) => {
                &&& is_blank(raw@) ==> r is Err && r->Err_0.message@
                    == "output_path must not be empty"@
                &&& is_settled(raw@) ==> match (
                    r,
                    wpix_output(raw@, "output_path"@, is_directory),
                ) {
                    (Ok(path), Ok(expected)) => path@ == expected,
                    (Err(e), Err(message)) => e.message@ == message,
                    _ => false,
                }
            },
        },
{
    match output_path {
        None => Err(
            Failure::of("output_path is required: provide a path to save the .wpix capture"),
        ),
        Some(raw) => {
            proof {
                reveal_strlit("output_path");
                reveal_strlit(" must not be empty");
                reveal_strlit("output_path must not be empty");
                assert("output_path"@ + " must not be empty"@ =~= "output_path must not be empty"@);
            }
            normalize_wpix_output(raw, "output_path", is_directory)
        },
    }
}

/// The answer to a request for a capture.
pub fn capture_report(result: CaptureResult, is_timing: bool) -> (r: CaptureReport)
    ensures
        r.success,
        r.message == result.message,
        r.output_path == result.output_path,
        r.pixtool_output == result.stdout,
        optional_text(r.note) == if is_timing {
            Some("Timing captures require administrator privileges"@)
        } else {
            None
        },
{
    CaptureReport {
        success: true,
        message: result.message,
        output_path: result.output_path,
        pixtool_output: result.stdout,
        note: if is_timing {
            Some("Timing captures require administrator privileges".to_string())
        } else {
            None
        },
    }
}

/// What is said of a capture that cannot be opened because it does not exist.
pub fn no_capture_to_open(path: &str) -> (r: Failure)
    ensures
        r.message@ == "Capture file not found: "@ + path@
            + ". Use pix_list_captures to find captures."@,
{
    Failure::new(
        concat3("Capture file not found: ", path, ". Use pix_list_captures to find captures."),
    )
}

/// The answer to a request to open a capture in PIX.
pub fn opened_report(path: &str) -> (r: MessageReport)
    ensures
        r.success,
        r.message@ == "Opened capture in PIX: "@ + path@,
{
    let mut message = "Opened capture in PIX: ".to_string();
    message.append(path);
    MessageReport { success: true, message }
}

// ---------------------------------------------------------------------------
// Lists
// ---------------------------------------------------------------------------

pub const MAX_LISTED_CAPTURES: usize = 500;

pub const DEFAULT_LISTED_CAPTURES: usize = 100;

/// How many captures a list has at most.
pub fn list_captures_limit(limit: Option<usize>) -> (r: Result<usize, Failure>)
    ensures
        ({
            let wanted = match limit {
                Some(n) => n,
                None => DEFAULT_LISTED_CAPTURES,
            };
            if 1 <= wanted <= MAX_LISTED_CAPTURES {
                r == Ok::<usize, Failure>(wanted)
            } else {
                r is Err && r->Err_0.message@ == "limit must be between 1 and 500"@
            }
        }),
{
    let wanted: usize = match limit {
        Some(n) => n,
        None => DEFAULT_LISTED_CAPTURES,
    };
    if wanted == 0 || wanted > MAX_LISTED_CAPTURES {
        return Err(Failure::of("limit must be between 1 and 500"));
    }
    Ok(wanted)
}

/// The directory that a request names, if any. One that is empty is refused.
pub fn list_captures_directory(directory: &Option<String>) -> (r: Result<Option<String>, Failure>)
    ensures
        match directory {
            Some(text) => if is_blank(text@) {
                r is Err && r->Err_0.message@ == "directory must not be empty"@
            } else {
                r is Ok && optional_text(r->Ok_0) == Some(text@)
            },
            None => r is Ok && r->Ok_0 is None,
        },
{
    match directory {
        Some(text) => {
            if blank(text) {
                return Err(Failure::of("directory must not be empty"));
            }
            Ok(Some(text.clone()))
        },
        None => Ok(None),
    }
}

/// Whether an entry of a list shows a capture.
pub open spec fn shows(entry: CaptureEntry, capture: CaptureInfo) -> bool {
    &&& entry.path@ == capture.path@
    &&& entry.name@ == capture.name@
    &&& entry.size_bytes == capture.size_bytes
    &&& entry.modified == match capture.modified {
        Some(time) => if time.seconds < 0 {
            None
        } else {
            Some(time.seconds as u64)
        },
        None => None,
    }
}

fn entry_of(capture: &CaptureInfo) -> (r: CaptureEntry)
    ensures
        shows(r, *capture),
{
    let modified: Option<u64> = match capture.modified {
        Some(time) => if time.seconds < 0 {
            None
        } else {
            Some(time.seconds as u64)
        },
        None => None,
    };
    CaptureEntry {
        path: capture.path.clone(),
        name: capture.name.clone(),
        size_bytes: capture.size_bytes,
        modified,
    }
}

/// One page of the captures in a directory: at most `limit` of them, from `offset` on.
pub fn capture_list_report(
    directory: String,
    captures: &Vec<CaptureInfo>,
    offset: Option<usize>,
    limit: usize,
) -> (r: CaptureListReport)
    ensures
        r.success,
        r.directory == directory,
        r.total_count == captures.len(),
        r.offset == least(
            match offset {
                Some(n) => n as nat,
                None => 0,
            },
            captures.len() as nat,
        ),
        r.returned == least(limit as nat, (captures.len() - r.offset) as nat),
        r.count == r.returned,
        r.captures.len() == r.returned,
        forall|i: int|
            0 <= i < r.returned ==> shows(#[trigger] r.captures@[i], captures@[r.offset + i]),
        r.truncated == (r.offset + r.returned < captures.len()),
        r.next_offset == if r.truncated {
            Some((r.offset + r.returned) as usize)
        } else {
            None
        },
{
    let total: usize = captures.len();
    let wanted: usize = match offset {
        Some(n) => n,
        None => 0,
    };
    let start: usize = if wanted < total {
        wanted
    } else {
        total
    };
    let end: usize = if limit < total - start {
        start + limit
    } else {
        total
    };
    let mut entries: Vec<CaptureEntry> = Vec::new();
    let mut i: usize = start;
    while i < end
        invariant
            start <= i <= end <= captures.len(),
            entries.len() == i - start,
            forall|k: int|
                0 <= k < i - start ==> shows(#[trigger] entries@[k], captures@[start + k]),
        decreases end - i,
    {
        entries.push(entry_of(&captures[i]));
        i += 1;
    }
    let truncated = end < total;
    CaptureListReport {
        success: true,
        directory,
        total_count: total,
        offset: start,
        returned: end - start,
        truncated,
        next_offset: if truncated {
            Some(end)
        } else {
            None
        },
        count: end - start,
        captures: entries,
    }
}

/// Adding an extension to a file name without one appends to the path.
proof fn lemma_added_extension(raw: Seq<char>)
    ensures
        named_file(raw) is Some && extension(last_name(raw)) is None ==> replaced_extension(
            raw,
            "wpix"@,
        ) == raw + ".wpix"@,
{
    reveal_strlit("wpix");
    reveal_strlit(".wpix");
    lemma_last_name(raw);
    let name = last_name(raw);
    assert(raw.take(raw.len() - name.len()) + name =~= raw);
    assert(raw + seq!['.'] + "wpix"@ =~= raw + ".wpix"@);
}

/// The last name of a path with `.wpix` appended.
proof fn lemma_appended_name(raw: Seq<char>)
    ensures
        last_name(raw + ".wpix"@) == last_name(raw) + ".wpix"@,
{
    reveal_strlit(".wpix");
    let s0 = raw.push('.');
    let s1 = s0.push('w');
    let s2 = s1.push('p');
    let s3 = s2.push('i');
    let s4 = s3.push('x');
    assert(s4 =~= raw + ".wpix"@);
    assert(s0.drop_last() =~= raw && s1.drop_last() =~= s0 && s2.drop_last() =~= s1
        && s3.drop_last() =~= s2 && s4.drop_last() =~= s3);
    assert(last_name(s0) == last_name(raw).push('.'));
    assert(last_name(s1) == last_name(s0).push('w'));
    assert(last_name(s2) == last_name(s1).push('p'));
    assert(last_name(s3) == last_name(s2).push('i'));
    assert(last_name(s4) == last_name(s3).push('x'));
    assert(last_name(s4) =~= last_name(raw) + ".wpix"@);
}

/// A path that was made the output of a capture is its own output: asking for it again changes
/// nothing.
pub proof fn capture_output_is_stable(raw: Seq<char>, label: Seq<char>)
    requires
        is_settled(raw),
        named_file(raw) is Some,
        wpix_output(raw, label, false) is Ok,
    ensures
        ({
            let path = wpix_output(raw, label, false)->Ok_0;
            &&& is_settled(path)
            &&& wpix_output(path, label, false) == Ok::<Seq<char>, Seq<char>>(path)
            &&& optional_has_extension(named_file(path), "wpix"@)
        }),
{
    let path = wpix_output(raw, label, false)->Ok_0;
    reveal_strlit(".wpix");
    reveal_strlit("wpix");
    if extension(last_name(raw)) is None {
        let before = last_name(raw);
        let name = last_name(path);
        lemma_appended_name(raw);
        lemma_last_at(before, '.');
        lemma_last_at(name, '.');
        let n = before.len() as int;
        assert(name[n] == '.');
        let dot = last_at(name, '.');
        if dot < n {
            assert(name[n] != '.');
        }
        if dot > n {
            assert(name[dot] == '.');
            assert(name[n + 1] == 'w' && name[n + 2] == 'p' && name[n + 3] == 'i' && name[n + 4]
                == 'x');
            assert(false);
        }
        assert(name.subrange(n + 1, name.len() as int) =~= "wpix"@);
        assert(extension(name) == Some("wpix"@));
        reveal_strlit(".");
        reveal_strlit("..");
        assert(name != "."@ && name != ".."@);
        lemma_last_name(raw);
        assert(path == raw + ".wpix"@);
        if begins_with_server(raw) {
            lemma_share_stays(raw, ".wpix"@);
        }
        if is_blank(path) {
            assert(path[raw.len() as int] == '.');
            assert(is_white_space(path[raw.len() as int]));
        }
    }
}

} // verus!
