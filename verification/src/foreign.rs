//! Trusted declarations for the few outside calls the library leans on:
//! URL parsing from the `url` crate, fresh identifiers from the `uuid` crate,
//! and `String::push` from std (which vstd does not specify).

use vstd::prelude::*;

verus! {

/// What `url::Url::parse` makes of the text `s`, with the query removed:
/// `None` when `s` is not a parseable URL, otherwise the serialization of the
/// parsed URL after `set_query(None)`. The result depends on `s` alone.
pub uninterp spec fn canon_of(s: Seq<char>) -> Option<Seq<char>>;

/// The path component that `url::Url::path` reports for the text `s`.
/// Meaningful only when `canon_of(s)` is `Some`.
pub uninterp spec fn upath_of(s: Seq<char>) -> Seq<char>;

/// Relies on `url::Url::parse`, `Url::path`, `Url::set_query(None)` and
/// `Url::as_str`: parsing is a deterministic function of the input text;
/// `path` returns the path component; `set_query(None)` drops the query and
/// keeps the rest; `as_str` returns the serialization.
#[verifier::external_body]
pub(crate) fn parse_url(s: &str) -> (r: Option<(String, String)>)
    ensures
        r is Some <==> canon_of(s@) is Some,
        r matches Some(p) ==> p.0@ == canon_of(s@)->0 && p.1@ == upath_of(s@),
{
    match url::Url::parse(s) {
        Ok(mut u) => {
            let path = u.path().to_string();
            u.set_query(None);
            Some((u.as_str().to_string(), path))
        },
        Err(_) => None,
    }
}

/// Relies on `uuid::Uuid::new_v4` and its `Display` impl: a random UUID
/// printed in the hyphenated form, which is always 36 characters.
/// Nothing more is assumed: the value is random.
#[verifier::external_body]
pub(crate) fn fresh_uuid() -> (r: String)
    ensures
        r@.len() == 36,
{
    uuid::Uuid::new_v4().to_string()
}

/// Relies on `String::push`: appends exactly the given character.
#[verifier::external_body]
pub(crate) fn push_char(s: &mut String, c: char)
    ensures
        final(s)@ == old(s)@.push(c),
{
    s.push(c);
}

} // verus!
