//! How a failed file or process operation is worded: the text Go's `os` and
//! `os/exec` packages print, which reaches the user in error messages.
use vstd::prelude::*;
use crate::text::{
    chars_of, debug_quoted, extend_chars, extend_str, has_char, has_prefix, has_prefix_at, lower_ascii,
    quote_debug, slice_chars, str_has_char, string_of, to_lower_ascii,
};

verus! {

broadcast use vstd::string::group_string_axioms;

/// The kinds of failure whose wording is fixed.
#[derive(Debug, Clone, Copy, PartialEq, Eq)]
pub enum IoErrorKind {
    NotFound,
    PermissionDenied,
    IsADirectory,
    /// Any other failure, worded by its own message.
    Other,
}

/// A failed operation: its kind, and the message the system gave for it.
#[derive(Debug, Clone, PartialEq, Eq)]
pub struct IoFailure {
    pub kind: IoErrorKind,
    pub message: String,
}

/// The first position from `i` on where `p` starts in `s`, if any.
pub open spec fn find_text_from(s: Seq<char>, p: Seq<char>, i: int) -> Option<int>
    decreases s.len() - i,
{
    if i < 0 || i >= s.len() {
        None
    } else if has_prefix(s.skip(i), p) {
        Some(i)
    } else {
        find_text_from(s, p, i + 1)
    }
}

/// The bracketed code a system message ends with.
pub open spec fn os_code_marker() -> Seq<char> {
    " (os error"@
}

/// The errno text Go prints for a failure: the fixed wording of the common
/// kinds, else the system's message without its bracketed code, lower-cased.
pub open spec fn go_errno_spec(kind: IoErrorKind, message: Seq<char>) -> Seq<char> {
    match kind {
        IoErrorKind::NotFound => "no such file or directory"@,
        IoErrorKind::PermissionDenied => "permission denied"@,
        IoErrorKind::IsADirectory => "is a directory"@,
        IoErrorKind::Other => match find_text_from(message, os_code_marker(), 0) {
            Some(i) => lower_ascii(message.take(i)),
            None => message,
        },
    }
}

/// What `os/exec` says when `program` could not be started.
pub open spec fn go_exec_error_spec(program: Seq<char>, kind: IoErrorKind, message: Seq<char>) -> Seq<char> {
    if has_char(program, '/') {
        "fork/exec "@ + program + ": "@ + go_errno_spec(kind, message)
    } else {
        match kind {
            IoErrorKind::NotFound => "exec: "@ + debug_quoted(program) + ": executable file not found in $PATH"@,
            IoErrorKind::PermissionDenied => "exec: "@ + debug_quoted(program) + ": permission denied"@,
            _ => "exec: "@ + debug_quoted(program) + ": "@ + go_errno_spec(kind, message),
        }
    }
}

fn find_text(v: &Vec<char>, p: &Vec<char>) -> (r: Option<usize>)
    ensures
        r matches Some(k) ==> find_text_from(v@, p@, 0) == Some(k as int) && k <= v@.len(),
        r is None ==> find_text_from(v@, p@, 0) is None,
{
    let mut i: usize = 0;
    while i < v.len()
        invariant
            i <= v.len(),
            find_text_from(v@, p@, 0) == find_text_from(v@, p@, i as int),
        decreases v.len() - i,
    {
        if has_prefix_at(v, i, p) {
            return Some(i);
        }
        i += 1;
    }
    None
}

/// The errno text Go prints for `e`.
pub fn go_errno(e: &IoFailure) -> (r: String)
    ensures
        r@ == go_errno_spec(e.kind, e.message@),
{
    match e.kind {
        IoErrorKind::NotFound => "no such file or directory".to_owned(),
        IoErrorKind::PermissionDenied => "permission denied".to_owned(),
        IoErrorKind::IsADirectory => "is a directory".to_owned(),
        IoErrorKind::Other => {
            let v = chars_of(e.message.as_str());
            let marker = chars_of(" (os error");
            match find_text(&v, &marker) {
                Some(i) => {
                    let head = slice_chars(&v, 0, i);
                    assert(head@ =~= v@.take(i as int));
                    string_of(&to_lower_ascii(&head))
                },
                None => e.message.clone(),
            }
        },
    }
}

/// What `os/exec` says when `program` could not be started with `e`.
pub fn go_exec_error(program: &str, e: &IoFailure) -> (r: String)
    ensures
        r@ == go_exec_error_spec(program@, e.kind, e.message@),
{
    let errno = go_errno(e);
    let mut out: Vec<char> = Vec::new();
    if str_has_char(program, '/') {
        extend_str(&mut out, "fork/exec ");
        extend_str(&mut out, program);
        extend_str(&mut out, ": ");
        extend_str(&mut out, errno.as_str());
        return string_of(&out);
    }
    let quoted = quote_debug(&chars_of(program));
    extend_str(&mut out, "exec: ");
    extend_chars(&mut out, &quoted);
    match e.kind {
        IoErrorKind::NotFound => extend_str(&mut out, ": executable file not found in $PATH"),
        IoErrorKind::PermissionDenied => extend_str(&mut out, ": permission denied"),
        _ => {
            extend_str(&mut out, ": ");
            extend_str(&mut out, errno.as_str());
        },
    }
    string_of(&out)
}

} // verus!
