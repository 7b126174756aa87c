use vstd::prelude::*;

verus! {

/// What parsing a URL and writing it back yields: the normalized form, or
/// nothing when the text is no absolute URL.
pub uninterp spec fn url_norm_of(s: Seq<char>) -> Option<Seq<char>>;

/// What joining a path onto a base URL yields, or nothing when the base does
/// not parse or the join fails.
pub uninterp spec fn url_join_of(base: Seq<char>, path: Seq<char>) -> Option<Seq<char>>;

/// Relies on url::Url::parse and Url::as_str: parsing depends on the text
/// alone, and the serialization of a parsed URL parses back to itself, so
/// normalizing is idempotent.
#[verifier::external_body]
pub fn normalize_url(s: &str) -> (r: Option<String>)
    ensures
        match r {
            Some(t) => url_norm_of(s@) == Some(t@) && url_norm_of(t@) == Some(t@),
            None => url_norm_of(s@) is None,
        },
{
    match url::Url::parse(s) {
        Ok(u) => Some(u.as_str().to_owned()),
        Err(_) => None,
    }
}

/// Relies on url::Url::parse and Url::join: both depend on their text
/// arguments alone.
#[verifier::external_body]
pub fn join_url(base: &str, path: &str) -> (r: Option<String>)
    ensures
        match r {
            Some(t) => url_join_of(base@, path@) == Some(t@),
            None => url_join_of(base@, path@) is None,
        },
{
    match url::Url::parse(base) {
        Ok(u) => match u.join(path) {
            Ok(j) => Some(j.as_str().to_owned()),
            Err(_) => None,
        },
        Err(_) => None,
    }
}

} // verus!
