//! Project naming for scaffolding: which names are safe to embed in the seed files.
use vstd::prelude::*;

use crate::strs::{chars_of, string_of, trim, trim_exec};

verus! {

/// Whether `c` is alphabetic or numeric in Unicode's sense (what `char::is_alphanumeric` reports).
pub uninterp spec fn char_is_alphanumeric(c: char) -> bool;

/// `char::is_alphanumeric`; its result is named `char_is_alphanumeric`.
#[verifier::external_body]
pub(crate) fn is_alphanumeric(c: char) -> (b: bool)
    ensures
        b == char_is_alphanumeric(c),
{
    c.is_alphanumeric()
}

/// The fallback schema name.
pub open spec fn fallback_name() -> Seq<char> {
    "sahou_project"@
}

pub open spec fn name_char_ok(c: char) -> bool {
    char_is_alphanumeric(c) || c == '_' || c == '-' || c == '.'
}

pub fn is_valid_name_char(c: char) -> (b: bool)
    ensures
        b == name_char_ok(c),
{
    is_alphanumeric(c) || c == '_' || c == '-' || c == '.'
}

/// A name is usable when, trimmed, it is non-empty and made of word-like characters only.
pub open spec fn sanitized(raw: Seq<char>) -> Option<Seq<char>> {
    let t = trim(raw);
    if t.len() > 0 && forall|i: int| 0 <= i < t.len() ==> name_char_ok(#[trigger] t[i]) {
        Some(t)
    } else {
        None
    }
}

/// Validate a name (reject empty / characters that could break YAML). Some(trimmed) when valid.
pub fn sanitize_name(raw: &str) -> (r: Option<String>)
    ensures
        match r {
            Some(s) => sanitized(raw@) == Some(s@),
            None => sanitized(raw@) is None,
        },
{
    let v = chars_of(raw);
    let t = trim_exec(&v);
    if t.len() == 0 {
        return None;
    }
    let mut i: usize = 0;
    while i < t.len()
        invariant
            i <= t@.len(),
            t@ == trim(raw@),
            forall|k: int| 0 <= k < i ==> name_char_ok(#[trigger] t@[k]),
        decreases t@.len() - i,
    {
        if !is_valid_name_char(t[i]) {
            assert(!name_char_ok(t@[i as int]));
            return None;
        }
        i = i + 1;
    }
    Some(string_of(&t))
}

/// The schema name: the explicit name when given (falling back when it is unusable), else the
/// target directory's base name (when known and usable), else the fallback.
pub open spec fn name_choice(name_arg: Option<Seq<char>>, basename: Option<Seq<char>>) -> Seq<char> {
    match name_arg {
        Some(n) => match sanitized(n) {
            Some(s) => s,
            None => fallback_name(),
        },
        None => match basename {
            Some(b) => match sanitized(b) {
                Some(s) => s,
                None => fallback_name(),
            },
            None => fallback_name(),
        },
    }
}

/// Determine the schema name from the explicit name or the directory's canonical base name
/// (`basename` is what resolving the directory on disk yielded, if anything).
pub fn resolve_name(name_arg: Option<&str>, basename: Option<&str>) -> (r: String)
    ensures
        r@ == name_choice(
            match name_arg {
                Some(n) => Some(n@),
                None => None,
            },
            match basename {
                Some(b) => Some(b@),
                None => None,
            },
        ),
{
    let pick = match name_arg {
        Some(n) => n,
        None => match basename {
            Some(b) => b,
            None => {
                return String::from_str("sahou_project");
            },
        },
    };
    match sanitize_name(pick) {
        Some(s) => s,
        None => String::from_str("sahou_project"),
    }
}

} // verus!
