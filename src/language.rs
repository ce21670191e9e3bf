//! Target-language tags, normalized by `locale_config`.

use vstd::prelude::*;
use vstd::utf8::is_ascii_chars;

verus! {

/// The normalized form of a language range, if it is well formed.
pub uninterp spec fn language_range_of(tag: Seq<char>) -> Option<Seq<char>>;

/// The language range that a Unix locale name stands for, if it is one.
pub uninterp spec fn unix_language_range_of(tag: Seq<char>) -> Option<Seq<char>>;

/// Relies on `locale_config::LanguageRange::new`: it accepts a well-formed RFC 4647 language
/// range and returns it case-normalized, and returns the empty string unchanged.
#[verifier::external_body]
fn language_range(tag: &str) -> (r: Option<String>)
    ensures
        match language_range_of(tag@) {
            Some(t) => r is Some && r->Some_0@ == t,
            None => r is None,
        },
        tag@.len() == 0 ==> r is Some && r->Some_0@.len() == 0,
{
    locale_config::LanguageRange::new(tag).ok().map(|l| l.as_ref().to_owned())
}

/// Relies on `locale_config::LanguageRange::from_unix`: it turns a Unix locale name such as
/// `cs_CZ.UTF-8` into a language range, or fails. Only ASCII names are handed to it: it cuts a
/// long variant at a byte offset, which on some non-ASCII characters that its case-insensitive
/// pattern admits falls inside a character and panics.
#[verifier::external_body]
fn unix_language_range(tag: &str) -> (r: Option<String>)
    requires
        is_ascii_chars(tag@),
    ensures
        match unix_language_range_of(tag@) {
            Some(t) => r is Some && r->Some_0@ == t,
            None => r is None,
        },
{
    locale_config::LanguageRange::from_unix(tag).ok().map(|l| l.as_ref().to_owned())
}

/// The tag of the invariant language: the empty string.
pub open spec fn invariant_language() -> Seq<char> {
    Seq::empty()
}

/// The tag chosen from the two readings of a `Language` value: the language range if it is well
/// formed, else the Unix locale name's range, else the invariant language.
pub open spec fn chosen_language(range: Option<Seq<char>>, unix: Option<Seq<char>>) -> Seq<char> {
    match range {
        Some(t) => t,
        None => match unix {
            Some(t) => t,
            None => invariant_language(),
        },
    }
}

/// The reading of `v` as a Unix locale name; only ASCII names are read so.
pub open spec fn unix_reading(v: Seq<char>) -> Option<Seq<char>> {
    if is_ascii_chars(v) {
        unix_language_range_of(v)
    } else {
        None
    }
}

/// The target language of a catalogue whose header gives `value` for `Language`.
pub open spec fn language_for(value: Option<Seq<char>>) -> Seq<char> {
    match value {
        None => invariant_language(),
        Some(v) => chosen_language(language_range_of(v), unix_reading(v)),
    }
}

/// Picks the tag from the two readings of a `Language` value.
pub fn choose_language(range: Option<String>, unix: Option<String>) -> (r: String)
    ensures
        r@ == chosen_language(
            match range {
                Some(t) => Some(t@),
                None => None,
            },
            match unix {
                Some(t) => Some(t@),
                None => None,
            },
        ),
{
    match range {
        Some(t) => t,
        None => match unix {
            Some(t) => t,
            None => String::new(),
        },
    }
}

/// The target language for a `Language` header value: read as a language range, else (for an
/// ASCII value) as a Unix locale name, else the invariant language.
pub fn resolve_language(value: &str) -> (r: String)
    ensures
        r@ == language_for(Some(value@)),
{
    let range = language_range(value);
    if range.is_some() {
        return choose_language(range, None);
    }
    if !value.is_ascii() {
        return choose_language(None, None);
    }
    let unix = unix_language_range(value);
    choose_language(None, unix)
}

} // verus!
