//! Files that are read and written: what is accepted before, and what is said after.

use crate::failure::Failure;
use crate::numbers::{decimal, decimal_text};
use crate::paths::{ends_with_name, file_name, is_settled};
use crate::text::{blank, concat3, is_blank};
use vstd::prelude::*;
use vstd::string::*;

verus! {

/// What is wrong with a file that is to be read, if anything: it must be a file, hold something,
/// and not be too large.
pub open spec fn file_problem(
    label: Seq<char>,
    path: Seq<char>,
    is_file: bool,
    size_bytes: nat,
    max_bytes: nat,
) -> Option<Seq<char>> {
    if !is_file {
        Some(label + " is not a file: "@ + path)
    } else if size_bytes == 0 {
        Some(label + " is empty: "@ + path)
    } else if size_bytes > max_bytes {
        Some(
            label + " is too large ("@ + decimal(size_bytes) + " bytes; maximum "@ + decimal(
                max_bytes,
            ) + "): "@ + path,
        )
    } else {
        None
    }
}

/// Accepts a file that is to be read.
pub fn check_file(label: &str, path: &str, is_file: bool, size_bytes: u64, max_bytes: u64) -> (r:
    Result<(), Failure>)
    ensures
        match file_problem(label@, path@, is_file, size_bytes as nat, max_bytes as nat) {
            None => r is Ok,
            Some(problem) => r is Err && r->Err_0.message@ == problem,
        },
{
    if !is_file {
        return Err(Failure::new(concat3(label, " is not a file: ", path)));
    }
    if size_bytes == 0 {
        return Err(Failure::new(concat3(label, " is empty: ", path)));
    }
    if size_bytes > max_bytes {
        let mut message = concat3(label, " is too large (", &decimal_text(size_bytes));
        message.append(" bytes; maximum ");
        message.append(&decimal_text(max_bytes));
        message.append("): ");
        message.append(path);
        return Err(Failure::new(message));
    }
    Ok(())
}

/// Accepts what was read of a file, unless the file went on beyond the limit.
pub fn check_bytes_read(label: &str, path: &str, read_bytes: u64, max_bytes: u64) -> (r: Result<
    (),
    Failure,
>)
    ensures
        r is Err == (read_bytes > max_bytes),
        r matches Err(e) ==> e.message@ == label@ + " grew beyond the maximum of "@ + decimal(
            max_bytes as nat,
        ) + " bytes while it was read: "@ + path@,
{
    if read_bytes > max_bytes {
        let mut message = concat3(label, " grew beyond the maximum of ", &decimal_text(max_bytes));
        message.append(" bytes while it was read: ");
        message.append(path);
        return Err(Failure::new(message));
    }
    Ok(())
}

/// Accepts an event list that is to be checked row by row.
pub fn check_event_csv(path: &str, is_file: bool, size_bytes: u64, max_bytes: u64) -> (r: Result<
    (),
    Failure,
>)
    ensures
        if !is_file || size_bytes == 0 {
            r is Err && r->Err_0.message@ == "CSV output is missing or empty: "@ + path@
        } else if size_bytes > max_bytes {
            r is Err && r->Err_0.message@ == "CSV output is too large ("@ + decimal(
                size_bytes as nat,
            ) + " bytes; maximum "@ + decimal(max_bytes as nat) + "): "@ + path@
        } else {
            r is Ok
        },
{
    if !is_file || size_bytes == 0 {
        let mut message = "CSV output is missing or empty: ".to_string();
        message.append(path);
        return Err(Failure::new(message));
    }
    if size_bytes > max_bytes {
        let mut message = concat3(
            "CSV output is too large (",
            &decimal_text(size_bytes),
            " bytes; maximum ",
        );
        message.append(&decimal_text(max_bytes));
        message.append("): ");
        message.append(path);
        return Err(Failure::new(message));
    }
    Ok(())
}

/// Accepts an event list that was exported for a comparison.
pub fn check_comparison_csv(size_bytes: u64, max_bytes: u64) -> (r: Result<(), Failure>)
    ensures
        if size_bytes == 0 {
            r is Err && r->Err_0.message@ == "Empty event-list CSV"@
        } else if size_bytes > max_bytes {
            r is Err && r->Err_0.message@ == "Comparison event list exceeds the "@ + decimal(
                max_bytes as nat,
            ) + " byte limit"@
        } else {
            r is Ok
        },
{
    if size_bytes == 0 {
        return Err(Failure::of("Empty event-list CSV"));
    }
    if size_bytes > max_bytes {
        return Err(
            Failure::new(
                concat3(
                    "Comparison event list exceeds the ",
                    &decimal_text(max_bytes),
                    " byte limit",
                ),
            ),
        );
    }
    Ok(())
}

/// What is found where an artifact is to go.
#[derive(Debug)]
pub struct Destination {
    pub is_directory: bool,
    pub parent: String,
    pub parent_is_directory: bool,
}

/// Accepts a place where an artifact is to go: it must name a file, in a directory that exists.
pub fn check_destination(path: &str, found: &Destination) -> (r: Result<(), Failure>)
    ensures
        is_blank(path@) ==> r is Err && r->Err_0.message@ == "Output path must name a file"@,
        r is Ok ==> !found.is_directory && found.parent_is_directory,
        is_settled(path@) || ends_with_name(path@) ==> if is_blank(path@) || !ends_with_name(path@) {
            r is Err && r->Err_0.message@ == "Output path must name a file"@
        } else if found.is_directory {
            r is Err && r->Err_0.message@ == "Output path is a directory: "@ + path@
        } else if !found.parent_is_directory {
            r is Err && r->Err_0.message@
                == "Output directory does not exist or is not a directory: "@ + found.parent@
        } else {
            r is Ok
        },
{
    if blank(path) || file_name(path).is_none() {
        return Err(Failure::of("Output path must name a file"));
    }
    if found.is_directory {
        let mut message = "Output path is a directory: ".to_string();
        message.append(path);
        return Err(Failure::new(message));
    }
    if !found.parent_is_directory {
        let mut message = "Output directory does not exist or is not a directory: ".to_string();
        message.append(&found.parent);
        return Err(Failure::new(message));
    }
    Ok(())
}

/// What is said of an artifact that could not be put where it was to go.
pub fn persist_failed(path: &str, replace_existing: bool, error: &str) -> (r: Failure)
    ensures
        r.message@ == (if replace_existing {
            "Failed to replace output file "@
        } else {
            "Failed to create output file "@
        }) + path@ + ": "@ + error@,
{
    let mut message = if replace_existing {
        "Failed to replace output file ".to_string()
    } else {
        "Failed to create output file ".to_string()
    };
    message.append(path);
    message.append(": ");
    message.append(error);
    Failure::new(message)
}

} // verus!
