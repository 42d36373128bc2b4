//! Whether PIX is installed and what it can do.

use crate::diagnostics::{is_incomplete, reject_incomplete_process_output};
use crate::failure::Failure;
use crate::paths::{ends_with_name, is_portable, is_settled, last_name, named_file};
use crate::text::{
    chars_have_part, chars_of, concat3, digit, eq_ignoring_case, has_part, is_digit,
    lemma_texts_push, lower_ascii, optional_text, same_ignoring_case, texts, to_lower_ascii,
};
use vstd::prelude::*;
use vstd::string::*;

verus! {

/// A component of PIX.
#[derive(Debug)]
pub struct PixComponent {
    pub found: bool,
    pub path: Option<String>,
    pub error: Option<String>,
}

/// What the installed `pixtool` says it can do.
#[derive(Debug)]
pub struct PixCapabilities {
    pub gpu_capture: bool,
    pub programmatic_capture: bool,
    pub timing_capture: bool,
    pub event_analysis: bool,
    pub resource_export: bool,
    pub high_frequency_counters: bool,
    pub occupancy_collection: bool,
    pub capture_upgrade: bool,
    pub detected_commands: Vec<String>,
}

/// The native library for timing queries. It is looked for, never loaded.
#[derive(Debug)]
pub struct PixStorageStatus {
    pub found: bool,
    pub path: Option<String>,
    pub query_api_enabled: bool,
    pub note: String,
}

/// What a request for the status is answered.
#[derive(Debug)]
pub struct StatusReport {
    pub success: bool,
    pub status: String,
    pub ready: bool,
    pub pixtool: PixComponent,
    pub pixtool_version: Option<String>,
    pub capabilities: Option<PixCapabilities>,
    pub pixstorage: PixStorageStatus,
    pub is_admin: bool,
    pub elevated_launch_allowed: bool,
    pub captures_directory: String,
    pub privileges_note: String,
    pub suggestions: Vec<String>,
}

// ---------------------------------------------------------------------------
// Capabilities
// ---------------------------------------------------------------------------

/// Whether a character can be part of the name of a command.
pub open spec fn is_command_char(c: char) -> bool {
    is_digit(c) || 'a' <= c <= 'z' || 'A' <= c <= 'Z' || c == '-'
}

fn command_char(c: char) -> (r: bool)
    ensures
        r == is_command_char(c),
{
    digit(c) || ('a' <= c && c <= 'z') || ('A' <= c && c <= 'Z') || c == '-'
}

/// The maximal runs of characters that can be part of a command's name, with an empty run
/// between two others that stand next to each other.
pub open spec fn command_words(s: Seq<char>) -> Seq<Seq<char>>
    decreases s.len(),
{
    if s.len() == 0 {
        seq![s]
    } else {
        let before = command_words(s.drop_last());
        if is_command_char(s.last()) {
            before.drop_last().push(before.last().push(s.last()))
        } else {
            before.push(seq![])
        }
    }
}

/// Whether `help` has `expected` as a complete word, in any case.
pub open spec fn advertises(help: Seq<char>, expected: Seq<char>) -> bool {
    exists|i: int|
        0 <= i < command_words(help).len() && same_ignoring_case(
            #[trigger] command_words(help)[i],
            expected,
        )
}

fn split_command_words(s: &str) -> (r: Vec<String>)
    ensures
        texts(r@) == command_words(s@),
{
    let chars = chars_of(s);
    let mut done: Vec<String> = Vec::new();
    let mut last = String::new();
    let mut i: usize = 0;
    proof {
        assert(texts(done@).push(last@) =~= seq![Seq::<char>::empty()]);
        assert(s@.take(0) =~= seq![]);
    }
    while i < chars.len()
        invariant
            i <= chars.len(),
            chars@ == s@,
            texts(done@).push(last@) == command_words(s@.take(i as int)),
        decreases chars.len() - i,
    {
        let c = chars[i];
        let ghost before = command_words(s@.take(i as int));
        proof {
            assert(s@.take(i + 1).drop_last() =~= s@.take(i as int));
            assert(before.drop_last() =~= texts(done@));
            assert(before.last() == last@);
        }
        if command_char(c) {
            last.push(c);
            assert(texts(done@).push(last@) =~= command_words(s@.take(i + 1)));
        } else {
            let ghost kept = texts(done@).push(last@);
            done.push(last);
            last = String::new();
            assert(texts(done@) =~= kept);
            assert(texts(done@).push(last@) =~= command_words(s@.take(i + 1)));
        }
        i += 1;
    }
    assert(s@.take(i as int) =~= s@);
    let ghost kept = texts(done@).push(last@);
    done.push(last);
    assert(texts(done@) =~= kept);
    done
}

fn any_ignoring_case(words: &Vec<String>, expected: &str) -> (r: bool)
    ensures
        r == (exists|i: int|
            0 <= i < texts(words@).len() && same_ignoring_case(
                #[trigger] texts(words@)[i],
                expected@,
            )),
{
    let mut i: usize = 0;
    while i < words.len()
        invariant
            i <= words.len(),
            forall|k: int|
                0 <= k < i ==> !same_ignoring_case(#[trigger] texts(words@)[k], expected@),
        decreases words.len() - i,
    {
        assert(texts(words@)[i as int] == words@[i as int]@);
        if eq_ignoring_case(&words[i], expected) {
            return true;
        }
        i += 1;
    }
    false
}

/// Whether the help text of `pixtool` names a command.
pub fn help_has_command(help: &str, expected: &str) -> (r: bool)
    ensures
        r == advertises(help@, expected@),
{
    any_ignoring_case(&split_command_words(help), expected)
}

/// A list with `command` in it, if it is advertised, or nothing.
pub open spec fn if_advertised(help: Seq<char>, command: Seq<char>) -> Seq<Seq<char>> {
    if advertises(help, command) {
        seq![command]
    } else {
        seq![]
    }
}

/// The known commands that a help text names, in a fixed order.
pub open spec fn advertised_commands(help: Seq<char>) -> Seq<Seq<char>> {
    if_advertised(help, "take-capture"@) + if_advertised(help, "programmatic-capture"@)
        + if_advertised(help, "take-new-timing-capture"@) + if_advertised(
        help,
        "save-event-list"@,
    ) + if_advertised(help, "save-resource"@) + if_advertised(help, "save-screenshot"@)
        + if_advertised(help, "save-high-frequency-counters"@) + if_advertised(
        help,
        "collect-occupancy"@,
    ) + if_advertised(help, "upgrade-gpu-capture"@)
}

fn add_if_advertised(found: &mut Vec<String>, help: &Vec<String>, command: &str) -> (r: bool)
    ensures
        forall|text: Seq<char>| #[trigger]
            command_words(text) == texts(help@) ==> {
                &&& r == advertises(text, command@)
                &&& texts(final(found)@) == texts(old(found)@) + if_advertised(text, command@)
            },
{
    broadcast use lemma_texts_push;

    let ghost before = texts(found@);
    let here = any_ignoring_case(help, command);
    if here {
        found.push(command.to_string());
        assert(texts(found@) =~= before + seq![command@]);
    } else {
        assert(texts(found@) =~= before + seq![]);
    }
    here
}

/// What `pixtool` can do, by its help text.
pub fn parse_capabilities(help: &str) -> (r: PixCapabilities)
    ensures
        r.gpu_capture == advertises(help@, "take-capture"@),
        r.programmatic_capture == advertises(help@, "programmatic-capture"@),
        r.timing_capture == advertises(help@, "take-new-timing-capture"@),
        r.event_analysis == advertises(help@, "save-event-list"@),
        r.resource_export == (advertises(help@, "save-resource"@) && advertises(
            help@,
            "save-screenshot"@,
        )),
        r.high_frequency_counters == advertises(help@, "save-high-frequency-counters"@),
        r.occupancy_collection == advertises(help@, "collect-occupancy"@),
        r.capture_upgrade == advertises(help@, "upgrade-gpu-capture"@),
        texts(r.detected_commands@) == advertised_commands(help@),
{
    let words = split_command_words(help);
    let mut found: Vec<String> = Vec::new();
    assert(command_words(help@) == texts(words@));
    let gpu_capture = add_if_advertised(&mut found, &words, "take-capture");
    assert(texts(found@) =~= if_advertised(help@, "take-capture"@));
    let programmatic_capture = add_if_advertised(&mut found, &words, "programmatic-capture");
    let timing_capture = add_if_advertised(&mut found, &words, "take-new-timing-capture");
    let event_analysis = add_if_advertised(&mut found, &words, "save-event-list");
    let resources = add_if_advertised(&mut found, &words, "save-resource");
    let screenshots = add_if_advertised(&mut found, &words, "save-screenshot");
    let high_frequency_counters = add_if_advertised(
        &mut found,
        &words,
        "save-high-frequency-counters",
    );
    let occupancy_collection = add_if_advertised(&mut found, &words, "collect-occupancy");
    let capture_upgrade = add_if_advertised(&mut found, &words, "upgrade-gpu-capture");
    PixCapabilities {
        gpu_capture,
        programmatic_capture,
        timing_capture,
        event_analysis,
        resource_export: resources && screenshots,
        high_frequency_counters,
        occupancy_collection,
        capture_upgrade,
        detected_commands: found,
    }
}

/// Whether the output of the health check is the help of `pixtool`.
pub open spec fn is_pixtool_help(combined: Seq<char>) -> bool {
    has_part(lower_ascii(combined), "usage: pixtool"@) && advertises(combined, "open-capture"@)
}

/// Reads the output of the health check.
pub fn probe_pixtool(stdout: &str, stderr: &str) -> (r: Result<PixCapabilities, Failure>)
    ensures
        ({
            let combined = stdout@ + "\n"@ + stderr@;
            if is_incomplete(stdout@, stderr@) {
                r is Err && r->Err_0.message@
                    == "pixtool health-check output exceeded the server limit"@
            } else if !is_pixtool_help(combined) {
                r is Err && r->Err_0.message@
                    == "the resolved executable did not return recognizable pixtool help"@
            } else {
                &&& r is Ok
                &&& texts(r->Ok_0.detected_commands@) == advertised_commands(combined)
                &&& r->Ok_0.gpu_capture == advertises(combined, "take-capture"@)
                &&& r->Ok_0.programmatic_capture == advertises(combined, "programmatic-capture"@)
                &&& r->Ok_0.timing_capture == advertises(combined, "take-new-timing-capture"@)
                &&& r->Ok_0.event_analysis == advertises(combined, "save-event-list"@)
                &&& r->Ok_0.resource_export == (advertises(combined, "save-resource"@)
                    && advertises(combined, "save-screenshot"@))
                &&& r->Ok_0.high_frequency_counters == advertises(
                    combined,
                    "save-high-frequency-counters"@,
                )
                &&& r->Ok_0.occupancy_collection == advertises(combined, "collect-occupancy"@)
                &&& r->Ok_0.capture_upgrade == advertises(combined, "upgrade-gpu-capture"@)
            }
        }),
{
    if reject_incomplete_process_output(stdout, stderr, "health check").is_err() {
        return Err(Failure::of("pixtool health-check output exceeded the server limit"));
    }
    let combined = concat3(stdout, "\n", stderr);
    if !chars_have_part(&to_lower_ascii(&chars_of(&combined)), &chars_of("usage: pixtool"))
        || !help_has_command(&combined, "open-capture") {
        return Err(
            Failure::of("the resolved executable did not return recognizable pixtool help"),
        );
    }
    Ok(parse_capabilities(&combined))
}

// ---------------------------------------------------------------------------
// The installation
// ---------------------------------------------------------------------------

/// Whether the name of a directory is that of a version: digits and dots, with a digit.
pub open spec fn is_version(name: Seq<char>) -> bool {
    &&& exists|i: int| 0 <= i < name.len() && is_digit(#[trigger] name[i])
    &&& forall|i: int| 0 <= i < name.len() ==> is_digit(#[trigger] name[i]) || name[i] == '.'
}

/// The version that the name of an installation directory stands for, if any.
pub fn version_of_directory(name: &str) -> (r: Option<String>)
    ensures
        optional_text(r) == if is_version(name@) {
            Some(name@)
        } else {
            None
        },
{
    let chars = chars_of(name);
    let mut any_digit: bool = false;
    let mut i: usize = 0;
    while i < chars.len()
        invariant
            i <= chars.len(),
            chars@ == name@,
            any_digit == (exists|k: int| 0 <= k < i && is_digit(#[trigger] name@[k])),
            forall|k: int| 0 <= k < i ==> is_digit(#[trigger] name@[k]) || name@[k] == '.',
        decreases chars.len() - i,
    {
        if digit(chars[i]) {
            assert(is_digit(name@[i as int]));
            any_digit = true;
        } else if chars[i] != '.' {
            assert(!is_digit(name@[i as int]) && name@[i as int] != '.');
            return None;
        }
        i += 1;
    }
    if any_digit {
        Some(name.to_string())
    } else {
        None
    }
}

/// The directory that a path is in, as a path: what stands before the separator of its last
/// name. Nothing where there is no separator.
pub open spec fn directory_of(path: Seq<char>) -> Seq<char> {
    if last_name(path).len() < path.len() {
        path.take(path.len() - last_name(path).len() - 1)
    } else {
        seq![]
    }
}

/// Whether every platform agrees on the name of the directory that a path is in.
pub open spec fn is_directory_settled(path: Seq<char>) -> bool {
    is_portable(path) && ends_with_name(path) && is_settled(directory_of(path))
}

/// `std::path::Path::parent` and `Path::file_name`: the name of the directory that a path is
/// in. What separates components depends on the platform, a slash does on all of them: nothing
/// is said of paths with other separators.
#[verifier::external_body]
fn directory_name(path: &str) -> (r: Option<String>)
    ensures
        is_directory_settled(path@) ==> optional_text(r) == named_file(directory_of(path@)),
{
    let name = std::path::Path::new(path).parent()?.file_name()?;
    Some(name.to_str()?.to_string())
}

/// The name of a directory, where it is a version.
pub open spec fn version_in(name: Option<Seq<char>>) -> Option<Seq<char>> {
    match name {
        Some(text) => if is_version(text) {
            Some(text)
        } else {
            None
        },
        None => None,
    }
}

/// The version of PIX, by the name of the directory that `pixtool` is in.
pub fn infer_installation_version(pixtool: &str) -> (r: Option<String>)
    ensures
        is_directory_settled(pixtool@) ==> optional_text(r) == version_in(
            named_file(directory_of(pixtool@)),
        ),
        r matches Some(version) ==> is_version(version@),
{
    match directory_name(pixtool) {
        Some(name) => version_of_directory(&name),
        None => None,
    }
}

/// What is said of the timing library where `pixtool` is not there.
pub fn unavailable_pixstorage() -> (r: PixStorageStatus)
    ensures
        !r.found,
        r.path is None,
        !r.query_api_enabled,
        r.note@
            == "PixStorage.dll was not inspected because pixtool is unavailable. Native timing queries are not exposed."@,
{
    PixStorageStatus {
        found: false,
        path: None,
        query_api_enabled: false,
        note: "PixStorage.dll was not inspected because pixtool is unavailable. Native timing queries are not exposed.".to_string(),
    }
}

/// What is said of the timing library at `candidate`, given whether it is there.
pub fn inspect_pixstorage(candidate: String, found: bool) -> (r: PixStorageStatus)
    ensures
        r.found == found,
        optional_text(r.path) == if found {
            Some(candidate@)
        } else {
            None
        },
        !r.query_api_enabled,
        r.note@ == if found {
            "PixStorage.dll is installed, but pix-mcp does not load native DLLs or expose arbitrary SQLite. Use PIX to inspect Timing Captures."@
        } else {
            "PixStorage.dll was not found beside pixtool. Native timing queries are not exposed."@
        },
{
    let note = if found {
        "PixStorage.dll is installed, but pix-mcp does not load native DLLs or expose arbitrary SQLite. Use PIX to inspect Timing Captures.".to_string()
    } else {
        "PixStorage.dll was not found beside pixtool. Native timing queries are not exposed.".to_string()
    };
    PixStorageStatus {
        found,
        path: if found {
            Some(candidate)
        } else {
            None
        },
        query_api_enabled: false,
        note,
    }
}

// ---------------------------------------------------------------------------
// The report
// ---------------------------------------------------------------------------

/// What came of looking for `pixtool`.
#[derive(Debug)]
pub enum PixtoolProbe {
    /// It was not found.
    Missing { error: String },
    /// It was found, and its help was read, or not.
    Found {
        path: String,
        version: Option<String>,
        capabilities: Result<PixCapabilities, String>,
        pixstorage: PixStorageStatus,
    },
}

/// What is suggested.
pub open spec fn suggestions_for(
    found: bool,
    has_error: bool,
    is_admin: bool,
    elevated_launch_allowed: bool,
) -> Seq<Seq<char>> {
    let about_pixtool = if !found {
        seq![
            "Install PIX from the Microsoft Store: https://apps.microsoft.com/store/detail/pix-on-windows/9PGD9BTP9D71"@,
            "Or set the PIXTOOL_PATH environment variable to pixtool.exe"@,
        ]
    } else if has_error {
        seq![
            "The resolved PIXTOOL_PATH could not be verified; point it to a working pixtool.exe"@,
        ]
    } else {
        seq![]
    };
    let about_rights = if !is_admin {
        seq!["Run as administrator to enable timing captures"@]
    } else if !elevated_launch_allowed {
        seq![
            "Use a separate non-elevated server for application-launch tools; timing capture remains enabled here"@,
        ]
    } else {
        seq![]
    };
    if found && !has_error && is_admin && elevated_launch_allowed {
        seq!["All systems operational"@]
    } else {
        about_pixtool + about_rights
    }
}

fn suggest(found: bool, has_error: bool, is_admin: bool, elevated_launch_allowed: bool) -> (r: Vec<
    String,
>)
    ensures
        texts(r@) == suggestions_for(found, has_error, is_admin, elevated_launch_allowed),
{
    broadcast use lemma_texts_push;

    let mut r: Vec<String> = Vec::new();
    if !found {
        r.push(
            "Install PIX from the Microsoft Store: https://apps.microsoft.com/store/detail/pix-on-windows/9PGD9BTP9D71".to_string(),
        );
        r.push("Or set the PIXTOOL_PATH environment variable to pixtool.exe".to_string());
    } else if has_error {
        r.push(
            "The resolved PIXTOOL_PATH could not be verified; point it to a working pixtool.exe".to_string(),
        );
    }
    if !is_admin {
        r.push("Run as administrator to enable timing captures".to_string());
    } else if !elevated_launch_allowed {
        r.push(
            "Use a separate non-elevated server for application-launch tools; timing capture remains enabled here".to_string(),
        );
    }
    if r.len() == 0 {
        r.push("All systems operational".to_string());
    }
    assert(texts(r@) =~= suggestions_for(found, has_error, is_admin, elevated_launch_allowed));
    r
}

/// What is said of the privileges of the server.
pub open spec fn privileges_text(is_admin: bool, elevated_launch_allowed: bool) -> Seq<char> {
    if is_admin {
        if elevated_launch_allowed {
            "Timing captures and explicitly opted-in elevated application launches are enabled"@
        } else {
            "Timing captures are enabled; application-launch tools are blocked while elevated"@
        }
    } else {
        "GPU captures work; timing captures require admin"@
    }
}

/// The report on the state of PIX.
pub fn status_report(
    probe: PixtoolProbe,
    is_admin: bool,
    elevated_launch_allowed: bool,
    captures_directory: String,
) -> (r: StatusReport)
    ensures
        r.success,
        r.is_admin == is_admin,
        r.elevated_launch_allowed == elevated_launch_allowed,
        r.captures_directory == captures_directory,
        r.pixtool.found == probe is Found,
        match probe {
            PixtoolProbe::Missing { error } => {
                &&& r.pixtool.path is None
                &&& optional_text(r.pixtool.error) == Some(error@)
                &&& r.pixtool_version is None
                &&& r.capabilities is None
                &&& !r.pixstorage.found && r.pixstorage.path is None
                    && !r.pixstorage.query_api_enabled && r.pixstorage.note@
                    == "PixStorage.dll was not inspected because pixtool is unavailable. Native timing queries are not exposed."@
            },
            PixtoolProbe::Found { path, version, capabilities, pixstorage } => {
                &&& optional_text(r.pixtool.path) == Some(path@)
                &&& r.pixstorage == pixstorage
                &&& r.pixtool_version == version
                &&& match capabilities {
                    Ok(found) => r.pixtool.error is None && r.capabilities == Some(found),
                    Err(error) => optional_text(r.pixtool.error) == Some(error@)
                        && r.capabilities is None,
                }
            },
        },
        r.ready == (probe is Found && probe->capabilities is Ok),
        r.status@ == if r.ready {
            "PIX is installed and ready"@
        } else {
            "PIX is not fully configured"@
        },
        r.privileges_note@ == privileges_text(is_admin, elevated_launch_allowed),
        texts(r.suggestions@) == suggestions_for(
            probe is Found,
            probe is Found && probe->capabilities is Err,
            is_admin,
            elevated_launch_allowed,
        ),
{
    let (pixtool, version, capabilities, pixstorage) = match probe {
        PixtoolProbe::Missing { error } => (
            PixComponent { found: false, path: None, error: Some(error) },
            None,
            None,
            unavailable_pixstorage(),
        ),
        PixtoolProbe::Found { path, version, capabilities, pixstorage } => match capabilities {
            Ok(found) => (
                PixComponent { found: true, path: Some(path), error: None },
                version,
                Some(found),
                pixstorage,
            ),
            Err(error) => (
                PixComponent { found: true, path: Some(path), error: Some(error) },
                version,
                None,
                pixstorage,
            ),
        },
    };
    let has_error = pixtool.error.is_some();
    let ready = pixtool.found && !has_error;
    let suggestions = suggest(
        pixtool.found,
        pixtool.found && has_error,
        is_admin,
        elevated_launch_allowed,
    );
    let status = if ready {
        "PIX is installed and ready".to_string()
    } else {
        "PIX is not fully configured".to_string()
    };
    let privileges_note = if is_admin {
        if elevated_launch_allowed {
            "Timing captures and explicitly opted-in elevated application launches are enabled".to_string()
        } else {
            "Timing captures are enabled; application-launch tools are blocked while elevated".to_string()
        }
    } else {
        "GPU captures work; timing captures require admin".to_string()
    };
    StatusReport {
        success: true,
        status,
        ready,
        pixtool,
        pixtool_version: version,
        capabilities,
        pixstorage,
        is_admin,
        elevated_launch_allowed,
        captures_directory,
        privileges_note,
        suggestions,
    }
}

} // verus!
