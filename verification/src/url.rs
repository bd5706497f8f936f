//! The base address of a scan.

use vstd::prelude::*;
use crate::error::DirustError;
use crate::text::{
    chars_of,
    lemma_trim_keeps_trimmed,
    range_starts_with,
    text_of,
    trim,
    trim_range,
};

verus! {

/// Whether an address has one of the two schemes that a scan speaks.
pub open spec fn has_http_scheme(address: Seq<char>) -> bool {
    "http://"@.is_prefix_of(address) || "https://"@.is_prefix_of(address)
}

/// An address with a `/` at its end: as it is if it has one, and with one
/// added if it has none.
pub open spec fn with_trailing_slash(address: Seq<char>) -> Seq<char> {
    if address.len() > 0 && address.last() == '/' {
        address
    } else {
        address.push('/')
    }
}

/// The normal form of a base address: without the white space around it and
/// with a `/` at its end. An address of another scheme than `http` or `https`
/// has none.
pub open spec fn normalized_base(base: Seq<char>) -> Option<Seq<char>> {
    if has_http_scheme(trim(base)) {
        Some(with_trailing_slash(trim(base)))
    } else {
        None
    }
}

/// A normal form ends in `/` and keeps the scheme, and is its own normal
/// form.
pub proof fn lemma_normalized_base_is_normal(base: Seq<char>)
    requires
        normalized_base(base) is Some,
    ensures
        normalized_base(base)->Some_0.last() == '/',
        has_http_scheme(normalized_base(base)->Some_0),
        normalized_base(normalized_base(base)->Some_0) == normalized_base(base),
{
    let trimmed = trim(base);
    let normal = with_trailing_slash(trimmed);
    assert(normal.subrange(0, trimmed.len() as int) =~= trimmed);
    assert forall|prefix: Seq<char>| prefix.is_prefix_of(trimmed) implies prefix.is_prefix_of(
        normal,
    ) by {
        assert(normal.subrange(0, prefix.len() as int) =~= trimmed.subrange(0, prefix.len() as int));
    }
    reveal_strlit("http://");
    reveal_strlit("https://");
    assert(normal.first() == 'h') by {
        if "http://"@.is_prefix_of(trimmed) {
            assert(trimmed[0] == "http://"@.subrange(0, 7)[0]);
        } else {
            assert(trimmed[0] == "https://"@.subrange(0, 8)[0]);
        }
    }
    lemma_trim_keeps_trimmed(normal);
}

/// Checks a base address and puts it in normal form: the white space around
/// it is dropped, its scheme must be `http` or `https`, and it is made to end
/// in `/`.
pub fn normalize_base(base: &str) -> (normal: Result<String, DirustError>)
    ensures
        normal is Ok <==> normalized_base(base@) is Some,
        normal matches Ok(address) ==> Some(address@) == normalized_base(base@),
        normal matches Err(e) ==> e is InvalidBaseUrl,
{
    let chars = chars_of(base);
    let (from, to) = trim_range(&chars, 0, chars.len());
    assert(chars@.subrange(0, chars@.len() as int) =~= chars@);
    if !range_starts_with(&chars, from, to, "http://") && !range_starts_with(
        &chars,
        from,
        to,
        "https://",
    ) {
        return Err(DirustError::InvalidBaseUrl);
    }
    let mut address = text_of(&chars, from, to);
    if !(from < to && chars[to - 1] == '/') {
        address.push('/');
    }
    Ok(address)
}

} // verus!
