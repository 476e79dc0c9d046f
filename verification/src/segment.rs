//! Validation of a single path component supplied by a client: a project,
//! branch or report name.
//!
//! A name is trimmed first. What is left must be non-empty, free of path
//! separators and of `..`, and made of `[A-Za-z0-9._-]` only.

use crate::text::{chars_of, string_of, trim_bounds, trimmed};
use vstd::prelude::*;

verus! {

/// Why a name was refused, in the order in which the checks are made.
#[derive(Clone, Copy, Debug, PartialEq, Eq, Structural)]
pub enum SegmentFault {
    /// Nothing is left after trimming.
    Empty,
    /// The name holds `/` or `\`.
    Separator,
    /// The name holds two dots in a row.
    ParentReference,
    /// The name holds a character outside `[A-Za-z0-9._-]`.
    InvalidCharacter,
}

/// A character that may stand in a path segment.
pub open spec fn is_segment_char(c: char) -> bool {
    ||| 'a' <= c <= 'z'
    ||| 'A' <= c <= 'Z'
    ||| '0' <= c <= '9'
    ||| c == '.'
    ||| c == '_'
    ||| c == '-'
}

/// Whether `s` holds a path separator.
pub open spec fn has_separator(s: Seq<char>) -> bool {
    exists|i: int| 0 <= i < s.len() && (#[trigger] s[i] == '/' || s[i] == '\\')
}

/// Whether `s` holds two consecutive dots.
pub open spec fn has_dot_dot(s: Seq<char>) -> bool {
    exists|i: int| 0 <= i < s.len() - 1 && #[trigger] s[i] == '.' && s[i + 1] == '.'
}

/// Whether every character of `s` may stand in a path segment.
pub open spec fn all_segment_chars(s: Seq<char>) -> bool {
    forall|i: int| 0 <= i < s.len() ==> is_segment_char(#[trigger] s[i])
}

/// The first fault of the trimmed name `s`, if it has one.
pub open spec fn segment_fault(s: Seq<char>) -> Option<SegmentFault> {
    if s.len() == 0 {
        Some(SegmentFault::Empty)
    } else if has_separator(s) {
        Some(SegmentFault::Separator)
    } else if has_dot_dot(s) {
        Some(SegmentFault::ParentReference)
    } else if !all_segment_chars(s) {
        Some(SegmentFault::InvalidCharacter)
    } else {
        None
    }
}

/// What is said of a fault, after the label of the field.
pub open spec fn fault_text(fault: SegmentFault) -> Seq<char> {
    match fault {
        SegmentFault::Empty => " cannot be empty or whitespace"@,
        SegmentFault::Separator => " must not contain path separators"@,
        SegmentFault::ParentReference => " must not contain '..'"@,
        SegmentFault::InvalidCharacter =>
            " contains invalid characters. Allowed: a-z, A-Z, 0-9, '.', '_', '-'"@,
    }
}

/// The outcome of validating `input` for the field labelled `field`: the
/// trimmed name, or the label followed by the text of the first fault.
pub open spec fn validated_segment(input: Seq<char>, field: Seq<char>) -> Result<
    Seq<char>,
    Seq<char>,
> {
    match segment_fault(trimmed(input)) {
        None => Ok(trimmed(input)),
        Some(fault) => Err(field + fault_text(fault)),
    }
}

/// A name that can be used as one directory name below the storage root.
pub open spec fn is_safe_segment(s: Seq<char>) -> bool {
    segment_fault(s) is None
}

/// Whether `c` may stand in a path segment.
pub fn segment_char(c: char) -> (b: bool)
    ensures
        b == is_segment_char(c),
{
    (c >= 'a' && c <= 'z') || (c >= 'A' && c <= 'Z') || (c >= '0' && c <= '9') || c == '.' || c
        == '_' || c == '-'
}

/// The first fault of `chars[from..to]`, if it has one.
fn find_fault(chars: &Vec<char>, from: usize, to: usize) -> (r: Option<SegmentFault>)
    requires
        from <= to <= chars.len(),
    ensures
        r == segment_fault(chars@.subrange(from as int, to as int)),
{
    let ghost s = chars@.subrange(from as int, to as int);
    if from == to {
        return Some(SegmentFault::Empty);
    }
    let mut i: usize = from;
    while i < to
        invariant
            from <= i <= to <= chars.len(),
            s == chars@.subrange(from as int, to as int),
            forall|k: int| 0 <= k < i - from ==> !(#[trigger] s[k] == '/' || s[k] == '\\'),
        decreases to - i,
    {
        if chars[i] == '/' || chars[i] == '\\' {
            assert(s[i - from] == '/' || s[i - from] == '\\');
            return Some(SegmentFault::Separator);
        }
        i = i + 1;
    }
    let mut i: usize = from;
    while i + 1 < to
        invariant
            from <= i < to <= chars.len(),
            s == chars@.subrange(from as int, to as int),
            !has_separator(s),
            forall|k: int| 0 <= k < i - from ==> !(#[trigger] s[k] == '.' && s[k + 1] == '.'),
        decreases to - i,
    {
        if chars[i] == '.' && chars[i + 1] == '.' {
            assert(s[i - from] == '.' && s[i - from + 1] == '.');
            return Some(SegmentFault::ParentReference);
        }
        i = i + 1;
    }
    let mut i: usize = from;
    while i < to
        invariant
            from <= i <= to <= chars.len(),
            s == chars@.subrange(from as int, to as int),
            s.len() > 0,
            !has_separator(s),
            !has_dot_dot(s),
            forall|k: int| 0 <= k < i - from ==> is_segment_char(#[trigger] s[k]),
        decreases to - i,
    {
        if !segment_char(chars[i]) {
            assert(!is_segment_char(s[i - from]));
            return Some(SegmentFault::InvalidCharacter);
        }
        i = i + 1;
    }
    None
}

/// The text of `fault`.
fn fault_message(fault: SegmentFault) -> (m: &'static str)
    ensures
        m@ == fault_text(fault),
{
    match fault {
        SegmentFault::Empty => " cannot be empty or whitespace",
        SegmentFault::Separator => " must not contain path separators",
        SegmentFault::ParentReference => " must not contain '..'",
        SegmentFault::InvalidCharacter =>
            " contains invalid characters. Allowed: a-z, A-Z, 0-9, '.', '_', '-'",
    }
}

/// Validates one path segment.
///
/// Returns the trimmed name when it is non-empty, holds neither a path
/// separator nor `..`, and is made of `[A-Za-z0-9._-]` only. Otherwise the
/// error is the label `field` followed by the text of the first failed check.
pub fn validate_path_segment(input: &str, field: &str) -> (r: Result<String, String>)
    ensures
        match r {
            Ok(name) => validated_segment(input@, field@) == Ok::<Seq<char>, Seq<char>>(name@),
            Err(message) => validated_segment(input@, field@) == Err::<Seq<char>, Seq<char>>(
                message@,
            ),
        },
{
    let chars = chars_of(input);
    let (from, to) = trim_bounds(&chars);
    match find_fault(&chars, from, to) {
        None => Ok(string_of(&chars, from, to)),
        Some(fault) => {
            let mut message = String::from_str(field);
            message.append(fault_message(fault));
            Err(message)
        },
    }
}

/// An accepted name is returned trimmed, is a safe segment, and validating
/// it again gives the same name.
pub proof fn lemma_accepted_segment_is_safe(input: Seq<char>, field: Seq<char>)
    requires
        validated_segment(input, field) is Ok,
    ensures
        validated_segment(input, field) == Ok::<Seq<char>, Seq<char>>(trimmed(input)),
        is_safe_segment(trimmed(input)),
        trimmed(input).len() > 0,
        !has_separator(trimmed(input)),
        !has_dot_dot(trimmed(input)),
        all_segment_chars(trimmed(input)),
        validated_segment(trimmed(input), field) == validated_segment(input, field),
{
    crate::text::lemma_trimmed_has_clean_ends(input);
}

} // verus!
